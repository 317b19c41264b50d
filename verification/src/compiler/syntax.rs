//! The meaning of parsing: syntax trees with their strings as character
//! sequences, and, for each step of the parser, the parser state and result
//! it produces from a given state.
//!
//! The parser works token by token with one token of lookahead; the functions
//! below describe each of its steps on a `PView`: the lexer's state, the
//! current and next token, the current token's position, the errors reported
//! so far with their positions, and whether parsing had to stop.
use vstd::prelude::*;
use crate::compiler::lexer::{is_eof, lemma_next_token, lex_wf, remaining, spec_next_token, LexState, Span, SpecToken, Token};
use crate::compiler::parser::{precedence_level, token_precedence, Expression, ParseError, Precedence, Statement};

verus! {

/// An expression, its strings as character sequences.
pub enum SExpr {
    Identifier(Seq<char>),
    Number(Seq<char>),
    Str(Seq<char>),
    Boolean(bool),
    Null,
    Shell(Box<SExpr>),
    Binary { left: Box<SExpr>, operator: SpecToken, right: Box<SExpr> },
    FunctionLiteral { params: Seq<Seq<char>>, body: Seq<SStmt> },
    Call { function: Box<SExpr>, arguments: Seq<SExpr> },
    Prefix { operator: SpecToken, right: Box<SExpr> },
    Postfix { operator: SpecToken, operand: Seq<char> },
    InterpolatedString(Seq<SExpr>),
    Array(Seq<SExpr>),
    Object(Seq<(Seq<char>, SExpr)>),
    Index { object: Box<SExpr>, index: Box<SExpr> },
    Member { object: Box<SExpr>, field: Seq<char> },
    Await(Box<SExpr>),
    MethodCall { object: Box<SExpr>, method: Seq<char>, arguments: Seq<SExpr> },
}

/// A statement, its strings as character sequences.
pub enum SStmt {
    Let { name: Seq<char>, value: SExpr },
    Const { name: Seq<char>, value: SExpr },
    Return(SExpr),
    Block(Seq<SStmt>),
    Expression(SExpr),
    Function { name: Seq<char>, params: Seq<Seq<char>>, body: Seq<SStmt>, is_async: bool },
    While { condition: SExpr, body: Seq<SStmt> },
    For { init: Box<SStmt>, condition: SExpr, update: Box<SStmt>, body: Seq<SStmt> },
    If { condition: SExpr, consequence: Seq<SStmt>, alternative: Option<Seq<SStmt>> },
    Assign { name: Seq<char>, value: SExpr },
    Import { path: Seq<char>, item: Option<Seq<char>> },
    TryCatch { try_body: Seq<SStmt>, catch_param: Seq<char>, catch_body: Seq<SStmt> },
}

/// A syntax error, its tokens by their views.
pub enum SParseError {
    NoPrefixParse(SpecToken),
    UnexpectedToken { expected: SpecToken, got: SpecToken },
    ExpectedObjectKey(SpecToken),
    ExpectedFieldName(SpecToken),
    UnclosedArray,
    ExpectedColon,
    UnclosedObject,
    UnclosedIndex,
    ForWithoutParen,
    ForWithoutCloseParen,
    ForWithoutBody,
}

impl View for ParseError {
    type V = SParseError;

    open spec fn view(&self) -> SParseError {
        match self {
            ParseError::NoPrefixParse(t) => SParseError::NoPrefixParse(t@),
            ParseError::UnexpectedToken { expected, got } => SParseError::UnexpectedToken { expected: expected@, got: got@ },
            ParseError::ExpectedObjectKey(t) => SParseError::ExpectedObjectKey(t@),
            ParseError::ExpectedFieldName(t) => SParseError::ExpectedFieldName(t@),
            ParseError::UnclosedArray => SParseError::UnclosedArray,
            ParseError::ExpectedColon => SParseError::ExpectedColon,
            ParseError::UnclosedObject => SParseError::UnclosedObject,
            ParseError::UnclosedIndex => SParseError::UnclosedIndex,
            ParseError::ForWithoutParen => SParseError::ForWithoutParen,
            ParseError::ForWithoutCloseParen => SParseError::ForWithoutCloseParen,
            ParseError::ForWithoutBody => SParseError::ForWithoutBody,
        }
    }
}

/// The views of a sequence of errors.
pub open spec fn errors_view(s: Seq<ParseError>) -> Seq<SParseError> {
    s.map_values(|e: ParseError| e@)
}

/// The views of a sequence of names.
pub open spec fn names_view(s: Seq<String>) -> Seq<Seq<char>> {
    s.map_values(|n: String| n@)
}

/// The view of an expression.
pub open spec fn ev(e: Expression) -> SExpr
    decreases e,
{
    match e {
        Expression::Identifier(s) => SExpr::Identifier(s@),
        Expression::Number(s) => SExpr::Number(s@),
        Expression::String(s) => SExpr::Str(s@),
        Expression::Boolean(b) => SExpr::Boolean(b),
        Expression::Null => SExpr::Null,
        Expression::Shell(x) => SExpr::Shell(Box::new(ev(*x))),
        Expression::Binary { left, operator, right } => SExpr::Binary {
            left: Box::new(ev(*left)),
            operator: operator@,
            right: Box::new(ev(*right)),
        },
        Expression::FunctionLiteral { params, body } => SExpr::FunctionLiteral {
            params: names_view(params@),
            body: svs(body@),
        },
        Expression::Call { function, arguments } => SExpr::Call {
            function: Box::new(ev(*function)),
            arguments: evs(arguments@),
        },
        Expression::Prefix { operator, right } => SExpr::Prefix { operator: operator@, right: Box::new(ev(*right)) },
        Expression::Postfix { operator, operand } => SExpr::Postfix { operator: operator@, operand: operand@ },
        Expression::InterpolatedString(parts) => SExpr::InterpolatedString(evs(parts@)),
        Expression::Array(xs) => SExpr::Array(evs(xs@)),
        Expression::Object(pairs) => SExpr::Object(pvs(pairs@)),
        Expression::Index { object, index } => SExpr::Index { object: Box::new(ev(*object)), index: Box::new(ev(*index)) },
        Expression::Member { object, field } => SExpr::Member { object: Box::new(ev(*object)), field: field@ },
        Expression::Await(x) => SExpr::Await(Box::new(ev(*x))),
        Expression::MethodCall { object, method, arguments } => SExpr::MethodCall {
            object: Box::new(ev(*object)),
            method: method@,
            arguments: evs(arguments@),
        },
    }
}

/// The views of a sequence of expressions.
pub open spec fn evs(s: Seq<Expression>) -> Seq<SExpr>
    decreases s,
{
    if s.len() == 0 {
        seq![]
    } else {
        evs(s.drop_last()).push(ev(s.last()))
    }
}

/// The views of a sequence of object entries.
pub open spec fn pvs(s: Seq<(String, Expression)>) -> Seq<(Seq<char>, SExpr)>
    decreases s,
{
    if s.len() == 0 {
        seq![]
    } else {
        pvs(s.drop_last()).push((s.last().0@, ev(s.last().1)))
    }
}

/// The view of a statement.
pub open spec fn sv(s: Statement) -> SStmt
    decreases s,
{
    match s {
        Statement::Let { name, value } => SStmt::Let { name: name@, value: ev(value) },
        Statement::Const { name, value } => SStmt::Const { name: name@, value: ev(value) },
        Statement::Return(e) => SStmt::Return(ev(e)),
        Statement::Block(b) => SStmt::Block(svs(b@)),
        Statement::Expression(e) => SStmt::Expression(ev(e)),
        Statement::Function { name, params, body, is_async } => SStmt::Function {
            name: name@,
            params: names_view(params@),
            body: svs(body@),
            is_async,
        },
        Statement::While { condition, body } => SStmt::While { condition: ev(condition), body: svs(body@) },
        Statement::For { init, condition, update, body } => SStmt::For {
            init: Box::new(sv(*init)),
            condition: ev(condition),
            update: Box::new(sv(*update)),
            body: svs(body@),
        },
        Statement::If { condition, consequence, alternative } => SStmt::If {
            condition: ev(condition),
            consequence: svs(consequence@),
            alternative: match alternative {
                Some(a) => Some(svs(a@)),
                None => None,
            },
        },
        Statement::Assign { name, value } => SStmt::Assign { name: name@, value: ev(value) },
        Statement::Import { path, item } => SStmt::Import {
            path: path@,
            item: match item {
                Some(i) => Some(i@),
                None => None,
            },
        },
        Statement::TryCatch { try_body, catch_param, catch_body } => SStmt::TryCatch {
            try_body: svs(try_body@),
            catch_param: catch_param@,
            catch_body: svs(catch_body@),
        },
    }
}

/// The views of a sequence of statements.
pub open spec fn svs(s: Seq<Statement>) -> Seq<SStmt>
    decreases s,
{
    if s.len() == 0 {
        seq![]
    } else {
        svs(s.drop_last()).push(sv(s.last()))
    }
}

/// The state of the parser.
pub struct PView {
    pub lex: LexState,
    pub cur: SpecToken,
    pub peek: SpecToken,
    pub cur_span: Span,
    pub errors: Seq<SParseError>,
    pub spans: Seq<Span>,
    pub aborted: bool,
}

/// The parser reading a lexer's first two tokens.
pub open spec fn parser_start(l: LexState) -> PView {
    let (l1, t1) = spec_next_token(l);
    let (l2, t2) = spec_next_token(l1);
    PView { lex: l2, cur: t1, peek: t2, cur_span: l1.last_span, errors: seq![], spans: seq![], aborted: false }
}

/// The measure of the input left: characters not scanned, plus one for each
/// of the current and next token that is not `EOF`.
pub open spec fn progress(p: PView) -> int {
    remaining(p.lex) + (if is_eof(p.peek) { 0int } else { 1int }) + (if is_eof(p.cur) { 0int } else { 1int })
}

/// `q` has strictly less input left than `p`.
pub open spec fn smaller(q: PView, p: PView) -> bool {
    0 <= progress(q) < progress(p)
}

/// `q` has no more input left than `p`.
pub open spec fn no_larger(q: PView, p: PView) -> bool {
    0 <= progress(q) <= progress(p)
}

/// The view of a token without payload.
pub open spec fn tk(t: Token) -> SpecToken {
    SpecToken::Plain(t)
}

/// The binding power of a token in infix position.
pub open spec fn spec_precedence(t: SpecToken) -> Precedence {
    match t {
        SpecToken::Plain(x) => token_precedence(x),
        _ => Precedence::LOWEST,
    }
}

/// Whether a token is a binary operator.
pub open spec fn is_binary(t: SpecToken) -> bool {
    t == tk(Token::Plus) || t == tk(Token::Minus) || t == tk(Token::Star) || t == tk(Token::Slash)
        || t == tk(Token::Modulo) || t == tk(Token::Equal) || t == tk(Token::NotEqual) || t == tk(Token::LT)
        || t == tk(Token::GT) || t == tk(Token::LTE) || t == tk(Token::GTE)
}

/// One token forward: the next token becomes current, the lexer scans the
/// one after it.
pub open spec fn p_next(p: PView) -> PView {
    let (l, t) = spec_next_token(p.lex);
    PView { lex: l, cur: p.peek, peek: t, cur_span: p.lex.last_span, ..p }
}

/// An error reported at the current token's position.
pub open spec fn p_error(p: PView, e: SParseError) -> PView {
    PView { errors: p.errors.push(e), spans: p.spans.push(p.cur_span), ..p }
}

/// Moves on if the next token is `t`; reports it otherwise.
pub open spec fn p_expect(p: PView, t: SpecToken) -> (PView, bool) {
    if p.peek == t {
        (p_next(p), true)
    } else {
        (p_error(p, SParseError::UnexpectedToken { expected: t, got: p.peek }), false)
    }
}

/// After a statement: past a `;` that follows it, and onto the next token.
pub open spec fn p_finish(p: PView) -> PView {
    if p.peek == tk(Token::Semicolon) {
        p_next(p_next(p))
    } else {
        p_next(p)
    }
}

/// A whole program: statements up to the end of input, stray `;` skipped,
/// and one token skipped after each statement that did not parse.
pub open spec fn p_program(p: PView, acc: Seq<SStmt>) -> (PView, Seq<SStmt>)
    decreases progress(p),
{
    if is_eof(p.cur) {
        (p, acc)
    } else if p.cur == tk(Token::Semicolon) {
        let q = p_next(p);
        if smaller(q, p) {
            p_program(q, acc)
        } else {
            (q, acc)
        }
    } else {
        let (q, r) = p_statement(p);
        match r {
            Some(s) => if smaller(q, p) {
                p_program(q, acc.push(s))
            } else {
                (q, acc.push(s))
            },
            None => {
                let q2 = p_next(q);
                if smaller(q2, p) {
                    p_program(q2, acc)
                } else {
                    (q2, acc)
                }
            },
        }
    }
}

/// One statement, chosen by the current token.
pub open spec fn p_statement(p: PView) -> (PView, Option<SStmt>)
    decreases progress(p), 20int,
{
    if p.cur == tk(Token::Import) {
        p_import(p)
    } else if p.cur == tk(Token::Let) {
        p_let(p, false)
    } else if p.cur == tk(Token::Const) {
        p_let(p, true)
    } else if p.cur == tk(Token::Return) {
        p_return(p)
    } else if p.cur == tk(Token::While) {
        p_while(p)
    } else if p.cur == tk(Token::For) {
        p_for(p)
    } else if p.cur == tk(Token::If) {
        p_if(p)
    } else {
        p_statement_rest(p)
    }
}

/// A statement that starts with no statement keyword but `fn` or `async`: a
/// block, a function, an assignment or an expression.
pub open spec fn p_statement_rest(p: PView) -> (PView, Option<SStmt>)
    decreases progress(p), 19int,
{
    if p.cur == tk(Token::LBrace) {
        let (q, stmts) = p_block(p);
        let q2 = if q.cur == tk(Token::RBrace) { p_next(q) } else { q };
        (q2, Some(SStmt::Block(stmts)))
    } else if p.cur == tk(Token::Fn) {
        p_function(p, false)
    } else if p.cur == tk(Token::Async) {
        if p.peek == tk(Token::Fn) {
            let q = p_next(p);
            if no_larger(q, p) {
                p_function(q, true)
            } else {
                (q, None)
            }
        } else {
            let (q, s) = p_expression_statement(p);
            (q, Some(s))
        }
    } else if p.cur is Ident && p.peek == tk(Token::Assign) {
        p_assign(p, p.cur->Ident_0)
    } else {
        let (q, s) = p_expression_statement(p);
        (q, Some(s))
    }
}

/// `name = value`, with an optional `;`.
pub open spec fn p_assign(p: PView, name: Seq<char>) -> (PView, Option<SStmt>)
    decreases progress(p), 18int,
{
    let q = p_next(p_next(p));
    if no_larger(q, p) {
        let (q2, value) = p_expression(q, Precedence::LOWEST);
        (p_finish(q2), Some(SStmt::Assign { name, value }))
    } else {
        (q, None)
    }
}

/// An expression as a statement, with an optional `;`.
pub open spec fn p_expression_statement(p: PView) -> (PView, SStmt)
    decreases progress(p), 18int,
{
    let (q, e) = p_expression(p, Precedence::LOWEST);
    (p_finish(q), SStmt::Expression(e))
}

/// The expression that starts at the current token, before any operator.
pub open spec fn p_prefix_part(p: PView) -> (PView, SExpr)
    decreases progress(p), 15int,
{
    match p.cur {
        SpecToken::Ident(s) => if p.peek == tk(Token::PlusPlus) {
            (p_next(p), SExpr::Postfix { operator: tk(Token::PlusPlus), operand: s })
        } else if p.peek == tk(Token::MinusMinus) {
            (p_next(p), SExpr::Postfix { operator: tk(Token::MinusMinus), operand: s })
        } else {
            (p, SExpr::Identifier(s))
        },
        SpecToken::Num(n) => (p, SExpr::Number(n)),
        SpecToken::Str(s) => p_interpolation(p, s),
        SpecToken::Plain(t) => if t == Token::InterpolationStart {
            p_interpolation(p, seq![])
        } else if t == Token::Dollar {
            p_shell(p)
        } else if t == Token::True {
            (p, SExpr::Boolean(true))
        } else if t == Token::False {
            (p, SExpr::Boolean(false))
        } else if t == Token::Minus || t == Token::Bang {
            p_prefix(p)
        } else if t == Token::LParen {
            p_paren(p)
        } else if t == Token::LBracket {
            p_array(p)
        } else if t == Token::LBrace {
            p_object(p)
        } else if t == Token::Await {
            p_await(p)
        } else {
            (p_error(p, SParseError::NoPrefixParse(p.cur)), SExpr::Null)
        },
    }
}

/// An expression whose operators bind more tightly than `prec`.
pub open spec fn p_expression(p: PView, prec: Precedence) -> (PView, SExpr)
    decreases progress(p), 16int,
{
    let (q, left) = p_prefix_part(p);
    if no_larger(q, p) {
        p_operators(q, prec, left)
    } else {
        (q, left)
    }
}

/// The operators that follow `left` and bind more tightly than `prec`.
pub open spec fn p_operators(p: PView, prec: Precedence, left: SExpr) -> (PView, SExpr)
    decreases progress(p), 15int,
{
    if !is_eof(p.peek) && precedence_level(prec) < precedence_level(spec_precedence(p.peek)) {
        let q = p_next(p);
        if no_larger(q, p) {
            let (q2, e) = if is_binary(p.peek) {
                p_infix(q, left)
            } else if p.peek == tk(Token::LParen) {
                p_call(q, left)
            } else if p.peek == tk(Token::LBracket) {
                p_index(q, left)
            } else if p.peek == tk(Token::Dot) {
                p_member(q, left)
            } else {
                (p, left)
            };
            if !(is_binary(p.peek) || p.peek == tk(Token::LParen) || p.peek == tk(Token::LBracket) || p.peek
                == tk(Token::Dot)) {
                (p, left)
            } else if smaller(q2, p) {
                p_operators(q2, prec, e)
            } else {
                (q2, e)
            }
        } else {
            (q, left)
        }
    } else {
        (p, left)
    }
}

/// `[a, b, ...]`.
pub open spec fn p_array(p: PView) -> (PView, SExpr)
    decreases progress(p), 14int,
{
    if p.peek == tk(Token::RBracket) {
        (p_next(p), SExpr::Array(seq![]))
    } else {
        let q = p_next(p);
        if smaller(q, p) {
            let (q2, first) = p_expression(q, Precedence::LOWEST);
            if no_larger(q2, p) {
                let (q3, items) = p_list(q2, seq![first]);
                let (q4, ok) = p_expect(q3, tk(Token::RBracket));
                let q5 = if ok { q4 } else { p_error(q4, SParseError::UnclosedArray) };
                (q5, SExpr::Array(items))
            } else {
                (q2, SExpr::Array(seq![first]))
            }
        } else {
            (q, SExpr::Array(seq![]))
        }
    }
}

/// More comma-separated expressions after those in `acc`.
pub open spec fn p_list(p: PView, acc: Seq<SExpr>) -> (PView, Seq<SExpr>)
    decreases progress(p), 13int,
{
    if p.peek == tk(Token::Comma) {
        let q = p_next(p_next(p));
        if smaller(q, p) {
            let (q2, e) = p_expression(q, Precedence::LOWEST);
            if smaller(q2, p) {
                p_list(q2, acc.push(e))
            } else {
                (q2, acc.push(e))
            }
        } else {
            (q, acc)
        }
    } else {
        (p, acc)
    }
}

/// `{key: value, ...}`.
pub open spec fn p_object(p: PView) -> (PView, SExpr)
    decreases progress(p), 14int,
{
    if p.peek == tk(Token::RBrace) {
        (p_next(p), SExpr::Object(seq![]))
    } else {
        let q = p_next(p);
        if smaller(q, p) {
            let (q2, pairs) = p_entries(q, seq![]);
            let (q3, ok) = p_expect(q2, tk(Token::RBrace));
            let q4 = if ok { q3 } else { p_error(q3, SParseError::UnclosedObject) };
            (q4, SExpr::Object(pairs))
        } else {
            (q, SExpr::Object(seq![]))
        }
    }
}

/// Object entries from the current token on, after those in `acc`.
pub open spec fn p_entries(p: PView, acc: Seq<(Seq<char>, SExpr)>) -> (PView, Seq<(Seq<char>, SExpr)>)
    decreases progress(p), 13int,
{
    let key = match p.cur {
        SpecToken::Str(s) => Some(s),
        SpecToken::Ident(s) => Some(s),
        _ => None,
    };
    match key {
        None => (p_error(p, SParseError::ExpectedObjectKey(p.cur)), acc),
        Some(k) => {
            let (q, ok) = p_expect(p, tk(Token::Colon));
            if !ok {
                (p_error(q, SParseError::ExpectedColon), acc)
            } else {
                let q2 = p_next(q);
                if smaller(q2, p) {
                    let (q3, value) = p_expression(q2, Precedence::LOWEST);
                    let acc2 = acc.push((k, value));
                    if q3.peek == tk(Token::Comma) {
                        let q4 = p_next(p_next(q3));
                        if smaller(q4, p) {
                            p_entries(q4, acc2)
                        } else {
                            (q4, acc2)
                        }
                    } else {
                        (q3, acc2)
                    }
                } else {
                    (q2, acc)
                }
            }
        },
    }
}

/// `left[index]`; the current token is `[`.
pub open spec fn p_index(p: PView, left: SExpr) -> (PView, SExpr)
    decreases progress(p), 14int,
{
    let q = p_next(p);
    if smaller(q, p) {
        let (q2, index) = p_expression(q, Precedence::LOWEST);
        let (q3, ok) = p_expect(q2, tk(Token::RBracket));
        let q4 = if ok { q3 } else { p_error(q3, SParseError::UnclosedIndex) };
        (q4, SExpr::Index { object: Box::new(left), index: Box::new(index) })
    } else {
        (q, left)
    }
}

/// `left.field`; the current token is `.`.
pub open spec fn p_member(p: PView, left: SExpr) -> (PView, SExpr) {
    let q = p_next(p);
    match q.cur {
        SpecToken::Ident(field) => (q, SExpr::Member { object: Box::new(left), field }),
        _ => (p_error(q, SParseError::ExpectedFieldName(q.cur)), SExpr::Null),
    }
}

/// `await expr`.
pub open spec fn p_await(p: PView) -> (PView, SExpr)
    decreases progress(p), 14int,
{
    let q = p_next(p);
    if smaller(q, p) {
        let (q2, e) = p_expression(q, Precedence::PREFIX);
        (q2, SExpr::Await(Box::new(e)))
    } else {
        (q, SExpr::Null)
    }
}

/// A string literal that starts with `head`, with the interpolated
/// expressions and literal pieces that follow it.
pub open spec fn p_interpolation(p: PView, head: Seq<char>) -> (PView, SExpr)
    decreases progress(p), 14int,
{
    let (q, parts) = p_pieces(p, seq![SExpr::Str(head)]);
    if parts.len() == 1 {
        (q, SExpr::Str(head))
    } else {
        (q, SExpr::InterpolatedString(parts))
    }
}

/// The token after an interpolated expression's `}`: the lexer is put back
/// into string mode first.
pub open spec fn p_close_interpolation(p: PView) -> PView {
    if p.peek == tk(Token::RBrace) {
        p_next(PView { lex: LexState { mode: crate::compiler::lexer::LexerMode::String, ..p.lex }, ..p })
    } else {
        let q = p_skip_to_brace(p);
        PView { lex: LexState { mode: crate::compiler::lexer::LexerMode::String, ..q.lex }, ..q }
    }
}

/// Tokens skipped up to a `}` or the end of input.
pub open spec fn p_skip_to_brace(p: PView) -> PView
    decreases progress(p),
{
    if p.cur != tk(Token::RBrace) && !is_eof(p.cur) {
        let q = p_next(p);
        if smaller(q, p) {
            p_skip_to_brace(q)
        } else {
            q
        }
    } else {
        p
    }
}

/// The interpolations and literal pieces of a string, after `acc`.
pub open spec fn p_pieces(p: PView, acc: Seq<SExpr>) -> (PView, Seq<SExpr>)
    decreases progress(p), 13int,
{
    if p.cur == tk(Token::InterpolationStart) || p.peek == tk(Token::InterpolationStart) {
        let q0 = if p.cur != tk(Token::InterpolationStart) { p_next(p) } else { p };
        let q = p_next(q0);
        if smaller(q, p) {
            let (q2, e) = p_expression(q, Precedence::LOWEST);
            let q3 = p_next(p_close_interpolation(q2));
            let acc2 = match q3.cur {
                SpecToken::Str(s) => acc.push(e).push(SExpr::Str(s)),
                _ => acc.push(e),
            };
            if q3.lex.mode == crate::compiler::lexer::LexerMode::Normal && q3.cur != tk(Token::InterpolationStart) {
                (q3, acc2)
            } else if smaller(q3, p) {
                p_pieces(q3, acc2)
            } else {
                (q3, acc2)
            }
        } else {
            (q, acc)
        }
    } else {
        (p, acc)
    }
}

/// `if cond { ... }`, optionally followed by `else { ... }` or `else if ...`.
pub open spec fn p_if(p: PView) -> (PView, Option<SStmt>)
    decreases progress(p), 18int,
{
    let q = p_next(p);
    if smaller(q, p) {
        let (q2, condition) = p_expression(q, Precedence::LOWEST);
        let (q3, ok) = p_expect(q2, tk(Token::LBrace));
        if !ok {
            (q3, None)
        } else if no_larger(q3, p) {
            let (q4, consequence) = p_block(q3);
            let q5 = if q4.cur == tk(Token::RBrace) { p_next(q4) } else { q4 };
            if q5.cur == tk(Token::Else) && q5.peek == tk(Token::If) {
                let q6 = p_next(q5);
                if smaller(q6, p) {
                    let (q7, r) = p_if(q6);
                    match r {
                        Some(s) => (q7, Some(SStmt::If { condition, consequence, alternative: Some(seq![s]) })),
                        None => (PView { aborted: true, ..q7 }, Some(SStmt::If { condition, consequence, alternative: None })),
                    }
                } else {
                    (q6, None)
                }
            } else if q5.cur == tk(Token::Else) && q5.peek == tk(Token::LBrace) {
                let q6 = p_next(q5);
                if no_larger(q6, p) {
                    let (q7, alt) = p_block(q6);
                    let q8 = if q7.cur == tk(Token::RBrace) { p_next(q7) } else { q7 };
                    (q8, Some(SStmt::If { condition, consequence, alternative: Some(alt) }))
                } else {
                    (q6, None)
                }
            } else {
                (q5, Some(SStmt::If { condition, consequence, alternative: None }))
            }
        } else {
            (q3, None)
        }
    } else {
        (q, None)
    }
}

/// The statements of a block, from the token after `{` up to `}` or the
/// end of input.
pub open spec fn p_block(p: PView) -> (PView, Seq<SStmt>)
    decreases progress(p), 12int,
{
    let q = p_next(p);
    if smaller(q, p) {
        p_stmts(q, seq![])
    } else {
        (q, seq![])
    }
}

/// Statements up to `}` or the end of input, after those in `acc`.
pub open spec fn p_stmts(p: PView, acc: Seq<SStmt>) -> (PView, Seq<SStmt>)
    decreases progress(p), 21int,
{
    if p.cur != tk(Token::RBrace) && !is_eof(p.cur) {
        if p.cur == tk(Token::Semicolon) {
            let q = p_next(p);
            if smaller(q, p) {
                p_stmts(q, acc)
            } else {
                (q, acc)
            }
        } else {
            let (q, r) = p_statement(p);
            match r {
                Some(s) => if smaller(q, p) {
                    p_stmts(q, acc.push(s))
                } else {
                    (q, acc.push(s))
                },
                None => {
                    let q2 = p_next(q);
                    if smaller(q2, p) {
                        p_stmts(q2, acc)
                    } else {
                        (q2, acc)
                    }
                },
            }
        }
    } else {
        (p, acc)
    }
}

/// `let name = value` (or `const`), with an optional `;`.
pub open spec fn p_let(p: PView, is_const: bool) -> (PView, Option<SStmt>)
    decreases progress(p), 18int,
{
    let q = p_next(p);
    match q.cur {
        SpecToken::Ident(name) => {
            let (q2, ok) = p_expect(q, tk(Token::Assign));
            if !ok {
                (q2, None)
            } else {
                let q3 = p_next(q2);
                if smaller(q3, p) {
                    let (q4, value) = p_expression(q3, Precedence::LOWEST);
                    let q5 = if q4.peek == tk(Token::Semicolon) { p_next(p_next(q4)) } else { p_next(q4) };
                    if is_const {
                        (q5, Some(SStmt::Const { name, value }))
                    } else {
                        (q5, Some(SStmt::Let { name, value }))
                    }
                } else {
                    (q3, None)
                }
            }
        },
        _ => (q, None),
    }
}

/// `return value`, with an optional `;`.
pub open spec fn p_return(p: PView) -> (PView, Option<SStmt>)
    decreases progress(p), 18int,
{
    let q = p_next(p);
    if smaller(q, p) {
        let (q2, e) = p_expression(q, Precedence::LOWEST);
        (p_finish(q2), Some(SStmt::Return(e)))
    } else {
        (q, None)
    }
}

/// `while cond { ... }`.
pub open spec fn p_while(p: PView) -> (PView, Option<SStmt>)
    decreases progress(p), 18int,
{
    let q = p_next(p);
    if smaller(q, p) {
        let (q2, condition) = p_expression(q, Precedence::LOWEST);
        let (q3, ok) = p_expect(q2, tk(Token::LBrace));
        if !ok {
            (q3, None)
        } else if no_larger(q3, p) {
            let (q4, body) = p_block(q3);
            let q5 = if q4.cur == tk(Token::RBrace) { p_next(q4) } else { q4 };
            (q5, Some(SStmt::While { condition, body }))
        } else {
            (q3, None)
        }
    } else {
        (q, None)
    }
}

/// The first clause of a `for` header.
pub open spec fn p_for_init(p: PView) -> (PView, Option<SStmt>)
    decreases progress(p), 19int,
{
    if p.cur == tk(Token::Let) {
        p_let(p, false)
    } else if p.cur == tk(Token::Semicolon) {
        (p_next(p), Some(SStmt::Expression(SExpr::Null)))
    } else if p.cur is Ident && p.peek == tk(Token::Assign) {
        p_init_assign(p)
    } else {
        let (q, e) = p_expression(p, Precedence::LOWEST);
        let q2 = if q.peek == tk(Token::Semicolon) { p_next(p_next(q)) } else { p_next(q) };
        (q2, Some(SStmt::Expression(e)))
    }
}

/// `name = value` as the first clause of a `for` header, with the `;` after
/// it.
pub open spec fn p_init_assign(p: PView) -> (PView, Option<SStmt>)
    decreases progress(p), 18int,
{
    let q = p_next(p_next(p));
    if no_larger(q, p) {
        let (q2, value) = p_expression(q, Precedence::LOWEST);
        let q3 = if q2.cur == tk(Token::Semicolon) || q2.peek == tk(Token::Semicolon) {
            if q2.peek == tk(Token::Semicolon) { p_next(p_next(q2)) } else { p_next(q2) }
        } else {
            q2
        };
        (q3, Some(SStmt::Assign { name: p.cur->Ident_0, value }))
    } else {
        (q, None)
    }
}

/// The condition of a `for` header; an empty one is `true`.
pub open spec fn p_for_condition(p: PView) -> (PView, SExpr)
    decreases progress(p), 19int,
{
    if p.cur == tk(Token::Semicolon) {
        (p_next(p), SExpr::Boolean(true))
    } else {
        let (q, e) = p_expression(p, Precedence::LOWEST);
        let q2 = if q.peek == tk(Token::Semicolon) { p_next(p_next(q)) } else { p_next(q) };
        (q2, e)
    }
}

/// The update clause of a `for` header.
pub open spec fn p_for_update(p: PView) -> (PView, SStmt)
    decreases progress(p), 19int,
{
    if p.cur == tk(Token::RParen) {
        (p, SStmt::Expression(SExpr::Null))
    } else if p.cur is Ident {
        p_update_named(p)
    } else {
        let (q, e) = p_expression(p, Precedence::LOWEST);
        (q, SStmt::Expression(e))
    }
}

/// The update clause of a `for` header that starts with a name.
pub open spec fn p_update_named(p: PView) -> (PView, SStmt)
    decreases progress(p), 18int,
{
    if p.peek == tk(Token::Assign) {
        let q = p_next(p_next(p));
        if no_larger(q, p) {
            let (q2, value) = p_expression(q, Precedence::LOWEST);
            (q2, SStmt::Assign { name: p.cur->Ident_0, value })
        } else {
            (q, SStmt::Expression(SExpr::Null))
        }
    } else if p.peek == tk(Token::PlusPlus) {
        (p_next(p), SStmt::Expression(SExpr::Postfix { operator: tk(Token::PlusPlus), operand: p.cur->Ident_0 }))
    } else if p.peek == tk(Token::MinusMinus) {
        (p_next(p), SStmt::Expression(SExpr::Postfix { operator: tk(Token::MinusMinus), operand: p.cur->Ident_0 }))
    } else {
        let (q, e) = p_expression(p, Precedence::LOWEST);
        (q, SStmt::Expression(e))
    }
}

/// `for (init; cond; update) { ... }`.
pub open spec fn p_for(p: PView) -> (PView, Option<SStmt>)
    decreases progress(p), 18int,
{
    let (q, ok) = p_expect(p, tk(Token::LParen));
    if !ok {
        (p_error(q, SParseError::ForWithoutParen), None)
    } else {
        let q1 = p_next(q);
        if smaller(q1, p) {
            let (q2, init) = p_for_init(q1);
            match init {
                None => (q2, None),
                Some(init) => if no_larger(q2, q1) {
                    p_for_clauses(q2, init)
                } else {
                    (q2, None)
                },
            }
        } else {
            (q1, None)
        }
    }
}

/// The condition and update of a `for` header and its body, after `init`.
pub open spec fn p_for_clauses(p: PView, init: SStmt) -> (PView, Option<SStmt>)
    decreases progress(p), 21int,
{
    let (q, condition) = p_for_condition(p);
    if no_larger(q, p) {
        p_for_tail(q, init, condition)
    } else {
        (q, None)
    }
}

/// The update of a `for` header and its body, after `init` and `condition`.
pub open spec fn p_for_tail(p: PView, init: SStmt, condition: SExpr) -> (PView, Option<SStmt>)
    decreases progress(p), 20int,
{
    let (q, update) = p_for_update(p);
    if no_larger(q, p) {
        p_for_body(q, init, condition, update)
    } else {
        (q, None)
    }
}

/// `) { ... }` closing a `for` header and giving its body.
pub open spec fn p_for_body(p: PView, init: SStmt, condition: SExpr, update: SStmt) -> (PView, Option<SStmt>)
    decreases progress(p), 13int,
{
    let (q, ok1) = p_expect(p, tk(Token::RParen));
    if !ok1 {
        (p_error(q, SParseError::ForWithoutCloseParen), None)
    } else {
        let (q2, ok2) = p_expect(q, tk(Token::LBrace));
        if !ok2 {
            (p_error(q2, SParseError::ForWithoutBody), None)
        } else if no_larger(q2, p) {
            let (q3, body) = p_block(q2);
            let q4 = if q3.cur == tk(Token::RBrace) { p_next(q3) } else { q3 };
            (q4, Some(SStmt::For { init: Box::new(init), condition, update: Box::new(update), body }))
        } else {
            (q2, None)
        }
    }
}

/// `fn name(params) { ... }`; `is_async` where `async` came before it.
pub open spec fn p_function(p: PView, is_async: bool) -> (PView, Option<SStmt>)
    decreases progress(p), 18int,
{
    let q = p_next(p);
    match q.cur {
        SpecToken::Ident(name) => {
            let (q2, ok) = p_expect(q, tk(Token::LParen));
            if !ok {
                (q2, None)
            } else {
                let (q3, params) = p_params(q2);
                let (q4, ok2) = p_expect(q3, tk(Token::LBrace));
                if !ok2 {
                    (q4, None)
                } else if no_larger(q4, p) {
                    let (q5, body) = p_block(q4);
                    let q6 = if q5.cur == tk(Token::RBrace) { p_next(q5) } else { q5 };
                    (q6, Some(SStmt::Function { name, params, body, is_async }))
                } else {
                    (q4, None)
                }
            }
        },
        _ => (q, None),
    }
}

/// The name of an identifier token, added to `acc`; `acc` for another token.
pub open spec fn push_name(acc: Seq<Seq<char>>, t: SpecToken) -> Seq<Seq<char>> {
    match t {
        SpecToken::Ident(s) => acc.push(s),
        _ => acc,
    }
}

/// `(a, b, ...)` of a function statement; the current token is `(`.
pub open spec fn p_params(p: PView) -> (PView, Seq<Seq<char>>) {
    let q = p_next(p);
    if q.cur == tk(Token::RParen) {
        (q, seq![])
    } else {
        let (q2, names) = p_more_names(q, push_name(seq![], q.cur));
        let (q3, _) = p_expect(q2, tk(Token::RParen));
        (q3, names)
    }
}

/// More comma-separated names after those in `acc`.
pub open spec fn p_more_names(p: PView, acc: Seq<Seq<char>>) -> (PView, Seq<Seq<char>>)
    decreases progress(p),
{
    if p.peek == tk(Token::Comma) {
        let q = p_next(p_next(p));
        if smaller(q, p) {
            p_more_names(q, push_name(acc, q.cur))
        } else {
            (q, acc)
        }
    } else {
        (p, acc)
    }
}

/// `function(args)`; the current token is `(`.
pub open spec fn p_call(p: PView, function: SExpr) -> (PView, SExpr)
    decreases progress(p), 14int,
{
    if p.peek == tk(Token::RParen) {
        (p_next(p), SExpr::Call { function: Box::new(function), arguments: seq![] })
    } else {
        let q = p_next(p);
        if smaller(q, p) {
            let (q2, first) = p_expression(q, Precedence::LOWEST);
            if no_larger(q2, p) {
                let (q3, args) = p_list(q2, seq![first]);
                let (q4, _) = p_expect(q3, tk(Token::RParen));
                (q4, SExpr::Call { function: Box::new(function), arguments: args })
            } else {
                (q2, SExpr::Call { function: Box::new(function), arguments: seq![first] })
            }
        } else {
            (q, function)
        }
    }
}

/// `left op right`; the current token is the operator.
pub open spec fn p_infix(p: PView, left: SExpr) -> (PView, SExpr)
    decreases progress(p), 14int,
{
    let operator = p.cur;
    let q = p_next(p);
    if smaller(q, p) {
        let (q2, right) = p_expression(q, spec_precedence(operator));
        (q2, SExpr::Binary { left: Box::new(left), operator, right: Box::new(right) })
    } else {
        (q, left)
    }
}

/// `-x` or `!x`.
pub open spec fn p_prefix(p: PView) -> (PView, SExpr)
    decreases progress(p), 14int,
{
    let operator = p.cur;
    let q = p_next(p);
    if smaller(q, p) {
        let (q2, right) = p_expression(q, Precedence::PREFIX);
        (q2, SExpr::Prefix { operator, right: Box::new(right) })
    } else {
        (q, SExpr::Null)
    }
}

/// `$ expr $` (the closing `$` is optional).
pub open spec fn p_shell(p: PView) -> (PView, SExpr)
    decreases progress(p), 14int,
{
    let q = p_next(p);
    if smaller(q, p) {
        let (q2, e) = p_expression(q, Precedence::LOWEST);
        let q3 = if q2.peek == tk(Token::Dollar) { p_next(q2) } else { q2 };
        (q3, SExpr::Shell(Box::new(e)))
    } else {
        (q, SExpr::Null)
    }
}

/// `import "path"`.
pub open spec fn p_import(p: PView) -> (PView, Option<SStmt>) {
    let q = p_next(p);
    match q.cur {
        SpecToken::Str(path) => (p_next(q), Some(SStmt::Import { path, item: None })),
        _ => (q, None),
    }
}

/// Whether the lexer, scanning on with `depth` parentheses open, closes them
/// and finds `=>` right after.
pub open spec fn arrow_ahead(l: LexState, depth: int) -> bool
    decreases remaining(l), 1int,
{
    let (l2, t) = spec_next_token(l);
    if is_eof(t) {
        false
    } else if 0 <= remaining(l2) < remaining(l) {
        arrow_after(l2, t, depth)
    } else {
        false
    }
}

/// `arrow_ahead` once the token `t` has been scanned, leaving the lexer in
/// state `l`.
pub open spec fn arrow_after(l: LexState, t: SpecToken, depth: int) -> bool
    decreases remaining(l), 2int,
{
    if t == tk(Token::LParen) {
        arrow_ahead(l, depth + 1)
    } else if t == tk(Token::RParen) {
        if depth - 1 == 0 {
            spec_next_token(l).1 == tk(Token::Arrow)
        } else {
            arrow_ahead(l, depth - 1)
        }
    } else {
        arrow_ahead(l, depth)
    }
}

/// Names after `(` of an arrow function, from the current token on.
pub open spec fn p_inline_params(p: PView) -> (PView, Seq<Seq<char>>) {
    if p.cur == tk(Token::RParen) {
        (p, seq![])
    } else {
        p_more_names(p, push_name(seq![], p.cur))
    }
}

/// `(params) => body` or a parenthesised expression; the current token is
/// `(`.
pub open spec fn p_paren(p: PView) -> (PView, SExpr)
    decreases progress(p), 14int,
{
    if arrow_ahead(p.lex, 1) {
        let q = p_next(p);
        let (q2, params) = p_inline_params(q);
        let q3 = p_expect(q2, tk(Token::RParen)).0;
        let q4 = p_expect(q3, tk(Token::Arrow)).0;
        let q5 = p_next(q4);
        if smaller(q5, p) {
            if q5.cur == tk(Token::LBrace) {
                let (q6, body) = p_block(q5);
                (q6, SExpr::FunctionLiteral { params, body })
            } else {
                let (q6, e) = p_expression(q5, Precedence::LOWEST);
                (q6, SExpr::FunctionLiteral { params, body: seq![SStmt::Return(e)] })
            }
        } else {
            (q5, SExpr::Null)
        }
    } else {
        let q = p_next(p);
        if smaller(q, p) {
            let (q2, e) = p_expression(q, Precedence::LOWEST);
            (p_expect(q2, tk(Token::RParen)).0, e)
        } else {
            (q, SExpr::Null)
        }
    }
}

// ── laws of operator precedence ──────────────────────────────────────────

/// The current token and the `n - 1` tokens after it.
pub open spec fn upcoming(p: PView, n: nat) -> Seq<SpecToken>
    decreases n,
{
    if n == 0 { seq![] } else { seq![p.cur] + upcoming(p_next(p), (n - 1) as nat) }
}

/// A number or a name: a token that is an operand by itself.
pub open spec fn is_atom(t: SpecToken) -> bool {
    t is Num || t is Ident
}

/// The expression of an operand token.
pub open spec fn atom_expr(t: SpecToken) -> SExpr {
    match t {
        SpecToken::Num(n) => SExpr::Number(n),
        SpecToken::Ident(s) => SExpr::Identifier(s),
        _ => SExpr::Null,
    }
}

/// A token that ends an expression: the end of input, or one that is no
/// operator and does not make a name before it an increment or decrement
/// (such as `;` or `}`).
pub open spec fn ends_expression(t: SpecToken) -> bool {
    is_eof(t) || (spec_precedence(t) == Precedence::LOWEST && t != tk(Token::PlusPlus) && t != tk(Token::MinusMinus))
}

/// The expression `l op r`.
pub open spec fn binary(l: SExpr, op: Token, r: SExpr) -> SExpr {
    SExpr::Binary { left: Box::new(l), operator: tk(op), right: Box::new(r) }
}

/// `+` or `-`.
pub open spec fn is_additive(t: Token) -> bool {
    t == Token::Plus || t == Token::Minus
}

/// `*`, `/` or `%`.
pub open spec fn is_multiplicative(t: Token) -> bool {
    t == Token::Star || t == Token::Slash || t == Token::Modulo
}

proof fn lemma_next(p: PView)
    requires
        lex_wf(p.lex),
    ensures
        lex_wf(p_next(p).lex),
        p_next(p).cur == p.peek,
        p_next(p).peek == spec_next_token(p.lex).1,
        p_next(p).lex == spec_next_token(p.lex).0,
        progress(p) >= 0,
        !is_eof(p.peek) ==> no_larger(p_next(p), p),
        !is_eof(p.peek) && !is_eof(p.cur) ==> smaller(p_next(p), p),
{
    lemma_next_token(p.lex);
}

proof fn lemma_operand(p: PView, prec: Precedence)
    requires
        lex_wf(p.lex),
        is_atom(p.cur),
        p.peek != tk(Token::PlusPlus),
        p.peek != tk(Token::MinusMinus),
    ensures
        p_expression(p, prec) == p_operators(p, prec, atom_expr(p.cur)),
{
    lemma_next(p);
    assert(p_prefix_part(p) == (p, atom_expr(p.cur)));
}

proof fn lemma_stop(p: PView, prec: Precedence, left: SExpr)
    requires
        is_eof(p.peek) || precedence_level(spec_precedence(p.peek)) <= precedence_level(prec),
    ensures
        p_operators(p, prec, left) == (p, left),
{
}

proof fn lemma_operator(p: PView, prec: Precedence, left: SExpr)
    requires
        lex_wf(p.lex),
        !is_eof(p.cur),
        is_binary(p.peek),
        precedence_level(prec) < precedence_level(spec_precedence(p.peek)),
        !is_eof(p_next(p).peek),
    ensures
        ({
            let q = p_next(p_next(p));
            let (q2, right) = p_expression(q, spec_precedence(p.peek));
            let e = (SExpr::Binary { left: Box::new(left), operator: p.peek, right: Box::new(right) });
            &&& smaller(q, p)
            &&& p_operators(p, prec, left) == (if smaller(q2, p) { p_operators(q2, prec, e) } else { (q2, e) })
        }),
{
    lemma_next(p);
    let p1 = p_next(p);
    lemma_next(p1);
    assert(!is_eof(p.peek));
    assert(p_infix(p1, left) == ({
        let (q2, right) = p_expression(p_next(p1), spec_precedence(p.peek));
        (q2, SExpr::Binary { left: Box::new(left), operator: p.peek, right: Box::new(right) })
    }));
}

/// The tokens of `upcoming(p, 6)`, one parser state at a time.
proof fn lemma_six(p: PView)
    ensures
        ({
            let u = upcoming(p, 6);
            let p1 = p_next(p);
            let p2 = p_next(p1);
            let p3 = p_next(p2);
            let p4 = p_next(p3);
            let p5 = p_next(p4);
            &&& u.len() == 6
            &&& u[0] == p.cur && u[1] == p1.cur && u[2] == p2.cur
            &&& u[3] == p3.cur && u[4] == p4.cur && u[5] == p5.cur
        }),
{
    reveal_with_fuel(upcoming, 7);
    let p1 = p_next(p);
    let p2 = p_next(p1);
    let p3 = p_next(p2);
    let p4 = p_next(p3);
    let p5 = p_next(p4);
    assert(upcoming(p5, 1) =~= seq![p5.cur]);
    assert(upcoming(p4, 2) =~= seq![p4.cur, p5.cur]);
    assert(upcoming(p3, 3) =~= seq![p3.cur, p4.cur, p5.cur]);
    assert(upcoming(p2, 4) =~= seq![p2.cur, p3.cur, p4.cur, p5.cur]);
    assert(upcoming(p1, 5) =~= seq![p1.cur, p2.cur, p3.cur, p4.cur, p5.cur]);
    assert(upcoming(p, 6) =~= seq![p.cur, p1.cur, p2.cur, p3.cur, p4.cur, p5.cur]);
}

/// `x a y b z`, where `b` binds more tightly than `a`: `x a (y b z)`.
proof fn lemma_tighter_right(p: PView, x: SpecToken, a: Token, y: SpecToken, b: Token, z: SpecToken, end: SpecToken)
    requires
        lex_wf(p.lex),
        is_atom(x),
        is_atom(y),
        is_atom(z),
        is_binary(tk(a)),
        is_binary(tk(b)),
        precedence_level(Precedence::LOWEST) < precedence_level(token_precedence(a)),
        precedence_level(token_precedence(a)) < precedence_level(token_precedence(b)),
        ends_expression(end),
        upcoming(p, 6) == seq![x, tk(a), y, tk(b), z, end],
    ensures
        p_expression(p, Precedence::LOWEST).1 == binary(atom_expr(x), a, binary(atom_expr(y), b, atom_expr(z))),
{
    lemma_six(p);
    let p1 = p_next(p);
    let p2 = p_next(p1);
    let p3 = p_next(p2);
    let p4 = p_next(p3);
    let p5 = p_next(p4);
    lemma_next(p);
    lemma_next(p1);
    lemma_next(p2);
    lemma_next(p3);
    lemma_next(p4);
    let pa = token_precedence(a);
    let pb = token_precedence(b);
    let zx = atom_expr(z);
    lemma_operand(p4, pb);
    lemma_stop(p4, pb, zx);
    lemma_operand(p2, pa);
    lemma_operator(p2, pa, atom_expr(y));
    let inner = binary(atom_expr(y), b, zx);
    lemma_stop(p4, pa, inner);
    assert(p_expression(p2, pa) == (p4, inner));
    lemma_operand(p, Precedence::LOWEST);
    lemma_operator(p, Precedence::LOWEST, atom_expr(x));
    let outer = binary(atom_expr(x), a, inner);
    lemma_stop(p4, Precedence::LOWEST, outer);
}

/// `x a y b z`, where `b` binds no more tightly than `a`: `(x a y) b z`.
proof fn lemma_group_left(p: PView, x: SpecToken, a: Token, y: SpecToken, b: Token, z: SpecToken, end: SpecToken)
    requires
        lex_wf(p.lex),
        is_atom(x),
        is_atom(y),
        is_atom(z),
        is_binary(tk(a)),
        is_binary(tk(b)),
        precedence_level(Precedence::LOWEST) < precedence_level(token_precedence(b)),
        precedence_level(token_precedence(b)) <= precedence_level(token_precedence(a)),
        ends_expression(end),
        upcoming(p, 6) == seq![x, tk(a), y, tk(b), z, end],
    ensures
        p_expression(p, Precedence::LOWEST).1 == binary(binary(atom_expr(x), a, atom_expr(y)), b, atom_expr(z)),
{
    lemma_six(p);
    let p1 = p_next(p);
    let p2 = p_next(p1);
    let p3 = p_next(p2);
    let p4 = p_next(p3);
    lemma_next(p);
    lemma_next(p1);
    lemma_next(p2);
    lemma_next(p3);
    lemma_next(p4);
    let pa = token_precedence(a);
    let pb = token_precedence(b);
    let yx = atom_expr(y);
    let zx = atom_expr(z);
    lemma_operand(p2, pa);
    lemma_stop(p2, pa, yx);
    lemma_operand(p, Precedence::LOWEST);
    lemma_operator(p, Precedence::LOWEST, atom_expr(x));
    let first = binary(atom_expr(x), a, yx);
    lemma_operand(p4, pb);
    lemma_stop(p4, pb, zx);
    lemma_operator(p2, Precedence::LOWEST, first);
    let whole = binary(first, b, zx);
    lemma_stop(p4, Precedence::LOWEST, whole);
}

/// `*`, `/` and `%` bind more tightly than `+` and `-`: `x + y / z` is
/// `x + (y / z)`, and `x / y + z` is `(x / y) + z`, for any numbers and names
/// `x`, `y`, `z` and any of these operators.
pub proof fn law_products_bind_tighter_than_sums(
    p: PView,
    x: SpecToken,
    a: Token,
    y: SpecToken,
    b: Token,
    z: SpecToken,
    end: SpecToken,
)
    requires
        lex_wf(p.lex),
        is_atom(x),
        is_atom(y),
        is_atom(z),
        ends_expression(end),
        upcoming(p, 6) == seq![x, tk(a), y, tk(b), z, end],
    ensures
        is_additive(a) && is_multiplicative(b) ==> p_expression(p, Precedence::LOWEST).1 == binary(atom_expr(x), a, binary(atom_expr(y), b, atom_expr(z))),
        is_multiplicative(a) && is_additive(b) ==> p_expression(p, Precedence::LOWEST).1 == binary(binary(atom_expr(x), a, atom_expr(y)), b, atom_expr(z)),
{
    if is_additive(a) && is_multiplicative(b) {
        lemma_tighter_right(p, x, a, y, b, z, end);
    }
    if is_multiplicative(a) && is_additive(b) {
        lemma_group_left(p, x, a, y, b, z, end);
    }
}

/// Operators of one level group to the left: `x - y + z` is `(x - y) + z`,
/// and `x / y * z` is `(x / y) * z`, for `+` and `-` together and for `*`,
/// `/` and `%` together.
pub proof fn law_same_level_groups_left(
    p: PView,
    x: SpecToken,
    a: Token,
    y: SpecToken,
    b: Token,
    z: SpecToken,
    end: SpecToken,
)
    requires
        lex_wf(p.lex),
        is_atom(x),
        is_atom(y),
        is_atom(z),
        (is_additive(a) && is_additive(b)) || (is_multiplicative(a) && is_multiplicative(b)),
        ends_expression(end),
        upcoming(p, 6) == seq![x, tk(a), y, tk(b), z, end],
    ensures
        p_expression(p, Precedence::LOWEST).1 == binary(binary(atom_expr(x), a, atom_expr(y)), b, atom_expr(z)),
{
    lemma_group_left(p, x, a, y, b, z, end);
}

} // verus!
