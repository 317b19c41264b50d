//! The EROX parser: a Pratt parser over the lexer's tokens.
use vstd::prelude::*;
use crate::compiler::lexer::{is_eof, lemma_next_token, remaining, LexState, Lexer, LexerMode, Span, Token};
use crate::compiler::syntax::{
    arrow_after, arrow_ahead, errors_view, ev, evs, names_view, p_array, p_await, p_call, p_close_interpolation,
    p_error, p_expect, p_expression, p_expression_statement, p_for, p_for_body, p_for_clauses, p_for_tail, p_for_condition, p_for_init, p_for_update,
    p_init_assign, p_update_named,
    p_function, p_if, p_import, p_index, p_infix, p_inline_params, p_interpolation, p_let, p_list, p_member,
    p_more_names, p_next, p_object, p_operators, p_params, p_paren, p_pieces, p_prefix, p_prefix_part,
    p_program, p_return, p_shell, p_skip_to_brace, p_statement, p_statement_rest, p_stmts, p_while, p_assign, p_block, p_entries,
    parser_start, push_name, pvs, spec_precedence, sv, svs, tk, PView, SExpr, SStmt,
};

verus! {

#[derive(Debug, PartialEq)]
pub enum Statement {
    Let { name: String, value: Expression },
    Const { name: String, value: Expression },
    Return(Expression),
    Block(Vec<Statement>),
    Expression(Expression),
    Function { name: String, params: Vec<String>, body: Vec<Statement>, is_async: bool },
    While { condition: Expression, body: Vec<Statement> },
    For { init: Box<Statement>, condition: Expression, update: Box<Statement>, body: Vec<Statement> },
    If { condition: Expression, consequence: Vec<Statement>, alternative: Option<Vec<Statement>> },
    Assign { name: String, value: Expression },
    Import { path: String, item: Option<String> },
    /// `try { .. } catch (e) { .. }`; the compiler handles it, the parser
    /// does not produce it.
    TryCatch { try_body: Vec<Statement>, catch_param: String, catch_body: Vec<Statement> },
}

#[derive(Debug, PartialEq)]
pub enum Expression {
    Identifier(String),
    /// A number, as the text of its literal.
    Number(String),
    String(String),
    Boolean(bool),
    Null,
    Shell(Box<Expression>),
    Binary { left: Box<Expression>, operator: Token, right: Box<Expression> },
    FunctionLiteral { params: Vec<String>, body: Vec<Statement> },
    Call { function: Box<Expression>, arguments: Vec<Expression> },
    Prefix { operator: Token, right: Box<Expression> },
    Postfix { operator: Token, operand: String },
    InterpolatedString(Vec<Expression>),
    Array(Vec<Expression>),
    Object(Vec<(String, Expression)>),
    Index { object: Box<Expression>, index: Box<Expression> },
    Member { object: Box<Expression>, field: String },
    Await(Box<Expression>),
    /// `object.method(args)`; the compiler handles it, the parser does not
    /// produce it.
    MethodCall { object: Box<Expression>, method: String, arguments: Vec<Expression> },
}

/// Binding power of operators, weakest first.
#[derive(Debug, PartialOrd, PartialEq, Eq, Clone, Copy, Structural)]
pub enum Precedence {
    LOWEST,
    EQUALS,
    LESSGREATER,
    SUM,
    PRODUCT,
    PREFIX,
    CALL,
    INDEX,
}

/// The position of a precedence level, weakest first.
pub open spec fn precedence_level(p: Precedence) -> u8 {
    match p {
        Precedence::LOWEST => 0,
        Precedence::EQUALS => 1,
        Precedence::LESSGREATER => 2,
        Precedence::SUM => 3,
        Precedence::PRODUCT => 4,
        Precedence::PREFIX => 5,
        Precedence::CALL => 6,
        Precedence::INDEX => 7,
    }
}

impl Precedence {
    /// The position of this level, weakest first (the order `<` uses).
    pub fn level(&self) -> (n: u8)
        ensures
            n == precedence_level(*self),
    {
        match self {
            Precedence::LOWEST => 0,
            Precedence::EQUALS => 1,
            Precedence::LESSGREATER => 2,
            Precedence::SUM => 3,
            Precedence::PRODUCT => 4,
            Precedence::PREFIX => 5,
            Precedence::CALL => 6,
            Precedence::INDEX => 7,
        }
    }
}

/// The binding power of a token in infix position.
pub open spec fn token_precedence(t: Token) -> Precedence {
    match t {
        Token::Equal | Token::NotEqual => Precedence::EQUALS,
        Token::LT | Token::GT | Token::LTE | Token::GTE => Precedence::LESSGREATER,
        Token::Plus | Token::Minus => Precedence::SUM,
        Token::Star | Token::Slash | Token::Modulo => Precedence::PRODUCT,
        Token::LParen => Precedence::CALL,
        Token::LBracket | Token::Dot => Precedence::INDEX,
        _ => Precedence::LOWEST,
    }
}

fn precedence_of(t: &Token) -> (p: Precedence)
    ensures
        p == token_precedence(*t),
{
    match t {
        Token::Equal | Token::NotEqual => Precedence::EQUALS,
        Token::LT | Token::GT | Token::LTE | Token::GTE => Precedence::LESSGREATER,
        Token::Plus | Token::Minus => Precedence::SUM,
        Token::Star | Token::Slash | Token::Modulo => Precedence::PRODUCT,
        Token::LParen => Precedence::CALL,
        Token::LBracket | Token::Dot => Precedence::INDEX,
        _ => Precedence::LOWEST,
    }
}

/// A syntax error; its position is the parser's span at the same index.
#[derive(Debug, Clone, PartialEq, Eq)]
pub enum ParseError {
    /// "No prefix parse function for {token:?}"
    NoPrefixParse(Token),
    /// "Expected {expected:?}, got {got:?} instead"
    UnexpectedToken { expected: Token, got: Token },
    /// "Expected string or identifier as object key, got {token:?}"
    ExpectedObjectKey(Token),
    /// "Expected field name after `.`, got {token:?}"
    ExpectedFieldName(Token),
    /// "Expected `]` to close array literal"
    UnclosedArray,
    /// "Expected `:` after object key"
    ExpectedColon,
    /// "Expected `}` to close object literal"
    UnclosedObject,
    /// "Expected `]` to close index expression"
    UnclosedIndex,
    /// "Expected `(` after `for`"
    ForWithoutParen,
    /// "Expected `)` after for loop clauses"
    ForWithoutCloseParen,
    /// "Expected `{` for for-loop body"
    ForWithoutBody,
}

impl ParseError {
    /// A copy of this error.
    pub fn duplicate(&self) -> (e: ParseError)
        ensures
            e@ == self@,
    {
        match self {
            ParseError::NoPrefixParse(t) => ParseError::NoPrefixParse(t.duplicate()),
            ParseError::UnexpectedToken { expected, got } => ParseError::UnexpectedToken {
                expected: expected.duplicate(),
                got: got.duplicate(),
            },
            ParseError::ExpectedObjectKey(t) => ParseError::ExpectedObjectKey(t.duplicate()),
            ParseError::ExpectedFieldName(t) => ParseError::ExpectedFieldName(t.duplicate()),
            ParseError::UnclosedArray => ParseError::UnclosedArray,
            ParseError::ExpectedColon => ParseError::ExpectedColon,
            ParseError::UnclosedObject => ParseError::UnclosedObject,
            ParseError::UnclosedIndex => ParseError::UnclosedIndex,
            ParseError::ForWithoutParen => ParseError::ForWithoutParen,
            ParseError::ForWithoutCloseParen => ParseError::ForWithoutCloseParen,
            ParseError::ForWithoutBody => ParseError::ForWithoutBody,
        }
    }
}

pub struct Parser {
    pub lexer: Lexer,
    pub cur_token: Token,
    pub peek_token: Token,
    pub errors: Vec<ParseError>,
    pub spans: Vec<Span>,
    pub cur_span: Span,
    /// Set when parsing met a malformed `else if` (an `if` without `{`), on
    /// which the parse cannot go on.
    pub aborted: bool,
}

impl View for Parser {
    type V = PView;

    open spec fn view(&self) -> PView {
        PView {
            lex: self.lexer@,
            cur: self.cur_token@,
            peek: self.peek_token@,
            cur_span: self.cur_span,
            errors: errors_view(self.errors@),
            spans: self.spans@,
            aborted: self.aborted,
        }
    }
}

/// `new` continues `old`: the parser has not moved backwards, and if `old`
/// stood on a real token, `new` has moved forward or still stands on it.
pub open spec fn steady(old: &Parser, new: &Parser) -> bool {
    &&& new.progress() <= old.progress()
    &&& !is_eof(old.cur_token@) ==> (new.progress() < old.progress() || new.cur_token@ == old.cur_token@)
}

/// `new` has moved forward from `old` if `old` stood on a real token.
pub open spec fn advanced(old: &Parser, new: &Parser) -> bool {
    &&& new.progress() <= old.progress()
    &&& !is_eof(old.cur_token@) ==> new.progress() < old.progress()
}

/// The view of an optional statement.
pub open spec fn opt_sv(r: Option<Statement>) -> Option<SStmt> {
    match r {
        Some(s) => Some(sv(s)),
        None => None,
    }
}

proof fn lemma_evs_push(s: Seq<Expression>, x: Expression)
    ensures
        evs(s.push(x)) == evs(s).push(ev(x)),
{
    assert(s.push(x).drop_last() =~= s);
}

proof fn lemma_svs_push(s: Seq<Statement>, x: Statement)
    ensures
        svs(s.push(x)) == svs(s).push(sv(x)),
{
    assert(s.push(x).drop_last() =~= s);
}

proof fn lemma_pvs_push(s: Seq<(String, Expression)>, x: (String, Expression))
    ensures
        pvs(s.push(x)) == pvs(s).push((x.0@, ev(x.1))),
{
    assert(s.push(x).drop_last() =~= s);
}

proof fn lemma_names_push(s: Seq<String>, x: String)
    ensures
        names_view(s.push(x)) == names_view(s).push(x@),
{
    assert(names_view(s.push(x)) =~= names_view(s).push(x@));
}

proof fn lemma_svs_single(x: Statement)
    ensures
        svs(seq![x]) == seq![sv(x)],
{
    assert(seq![x].drop_last() =~= Seq::<Statement>::empty());
    assert(svs(Seq::<Statement>::empty()) =~= Seq::<SStmt>::empty());
    assert(svs(seq![x]) =~= seq![sv(x)]);
}

proof fn lemma_evs_single(x: Expression)
    ensures
        evs(seq![x]) == seq![ev(x)],
{
    assert(seq![x].drop_last() =~= Seq::<Expression>::empty());
    assert(evs(Seq::<Expression>::empty()) =~= Seq::<SExpr>::empty());
    assert(evs(seq![x]) =~= seq![ev(x)]);
}

proof fn lemma_evs_len(s: Seq<Expression>)
    ensures
        evs(s).len() == s.len(),
    decreases s.len(),
{
    if s.len() > 0 {
        lemma_evs_len(s.drop_last());
    }
}

proof fn lemma_precedence(t: Token)
    ensures
        token_precedence(t) == spec_precedence(t@),
{
}

impl Parser {
    /// The lexer's cursor is consistent, and each error has its position.
    pub open spec fn wf(&self) -> bool {
        &&& self.lexer.wf()
        &&& self.errors@.len() == self.spans@.len()
    }

    /// A measure of the input left: characters not yet scanned, plus one for
    /// each of the current and next token that is not `EOF`.
    pub open spec fn progress(&self) -> int {
        remaining(self.lexer@) + (if is_eof(self.peek_token@) { 0int } else { 1int }) + (if is_eof(
            self.cur_token@,
        ) {
            0int
        } else {
            1int
        })
    }

    /// Whether parsing met a malformed `else if` (an `if` without `{`), on
    /// which the parse cannot go on.
    pub open spec fn spec_aborted(&self) -> bool {
        self.aborted
    }

    /// A parser reading `lexer`'s first two tokens.
    pub fn new(lexer: Lexer) -> (p: Self)
        requires
            lexer.wf(),
        ensures
            p.wf(),
            p@ == parser_start(lexer@),
            !p.spec_aborted(),
            p.errors@.len() == 0,
            p.spans@.len() == 0,
    {
        let mut lexer = lexer;
        let cur_token = lexer.next_token();
        let cur_span = lexer.span();
        let peek_token = lexer.next_token();
        let p = Parser { lexer, cur_token, peek_token, errors: vec![], spans: vec![], cur_span, aborted: false };
        assert(errors_view(p.errors@) =~= seq![]);
        p
    }

    /// Whether parsing met a malformed `else if` (see `spec_aborted`).
    pub fn aborted(&self) -> (r: bool)
        ensures
            r == self.spec_aborted(),
    {
        self.aborted
    }

    /// Moves one token forward.
    pub fn next_token(&mut self)
        requires
            old(self).wf(),
        ensures
            final(self).wf(),
            final(self)@ === p_next(old(self)@),
            advanced(old(self), final(self)),
            final(self).errors == old(self).errors,
            final(self).spans == old(self).spans,
            final(self).spec_aborted() == old(self).spec_aborted(),
    {
        let span = self.lexer.span();
        let mut t = self.lexer.next_token();
        std::mem::swap(&mut self.peek_token, &mut t);
        self.cur_token = t;
        self.cur_span = span;
        proof {
            lemma_next_token(old(self).lexer@);
        }
    }

    fn error_at_current(&mut self, e: ParseError)
        requires
            old(self).wf(),
        ensures
            final(self).wf(),
            final(self)@ === p_error(old(self)@, e@),
            final(self).progress() == old(self).progress(),
            final(self).cur_token == old(self).cur_token,
    {
        let span = self.cur_span;
        self.spans.push(span);
        self.errors.push(e);
        proof {
            assert(errors_view(self.errors@) =~= errors_view(old(self).errors@).push(e@));
        }
    }

    fn peek_precedence(&self) -> (p: Precedence)
        ensures
            p == spec_precedence(self.peek_token@),
    {
        proof {
            lemma_precedence(self.peek_token);
        }
        precedence_of(&self.peek_token)
    }

    fn cur_precedence(&self) -> (p: Precedence)
        ensures
            p == spec_precedence(self.cur_token@),
    {
        proof {
            lemma_precedence(self.cur_token);
        }
        precedence_of(&self.cur_token)
    }

    fn expect_peek(&mut self, t: Token) -> (r: bool)
        requires
            old(self).wf(),
        ensures
            final(self).wf(),
            (final(self)@, r) === p_expect(old(self)@, t@),
            steady(old(self), final(self)),
            r ==> advanced(old(self), final(self)),
            !r ==> final(self).progress() == old(self).progress() && final(self).cur_token == old(self).cur_token,
    {
        if self.peek_token.same(&t) {
            self.next_token();
            true
        } else {
            let got = self.peek_token.duplicate();
            self.error_at_current(ParseError::UnexpectedToken { expected: t, got });
            false
        }
    }

    /// Parses statements up to the end of input.
    #[verifier::spinoff_prover]
    #[verifier::rlimit(80)]
    pub fn parse_program(&mut self) -> (program: Vec<Statement>)
        requires
            old(self).wf(),
        ensures
            final(self).wf(),
            is_eof(final(self).cur_token@),
            (final(self)@, svs(program@)) === p_program(old(self)@, seq![]),
    {
        let mut program: Vec<Statement> = vec![];
        assert(svs(program@) =~= seq![]);
        while !self.cur_token.is_eof()
            invariant
                self.wf(),
                p_program(self@, svs(program@)) === p_program(old(self)@, seq![]),
            decreases self.progress(),
        {
            if matches!(self.cur_token, Token::Semicolon) {
                self.next_token();
                continue;
            }
            let ghost before = self@;
            match self.parse_statement() {
                Some(stmt) => {
                    proof {
                        lemma_svs_push(program@, stmt);
                    }
                    program.push(stmt);
                },
                None => self.next_token(),
            }
        }
        program
    }

    #[verifier::spinoff_prover]
    #[verifier::rlimit(80)]
    fn parse_statement(&mut self) -> (r: Option<Statement>)
        requires
            old(self).wf(),
        ensures
            final(self).wf(),
            steady(old(self), final(self)),
            r is Some ==> advanced(old(self), final(self)),
            (final(self)@, opt_sv(r)) === p_statement(old(self)@),
        decreases old(self).progress(), 20int,
    {
        if matches!(self.cur_token, Token::Import) {
            self.parse_import_statement()
        } else if matches!(self.cur_token, Token::Let) {
            self.parse_let_statement()
        } else if matches!(self.cur_token, Token::Const) {
            self.parse_const_statement()
        } else if matches!(self.cur_token, Token::Return) {
            self.parse_return_statement()
        } else if matches!(self.cur_token, Token::While) {
            self.parse_while_statement()
        } else if matches!(self.cur_token, Token::For) {
            self.parse_for_statement()
        } else if matches!(self.cur_token, Token::If) {
            self.parse_if_statement()
        } else {
            self.parse_statement_rest()
        }
    }

    #[verifier::spinoff_prover]
    #[verifier::rlimit(80)]
    fn parse_statement_rest(&mut self) -> (r: Option<Statement>)
        requires
            old(self).wf(),
        ensures
            final(self).wf(),
            steady(old(self), final(self)),
            r is Some ==> advanced(old(self), final(self)),
            (final(self)@, opt_sv(r)) === p_statement_rest(old(self)@),
        decreases old(self).progress(), 19int,
    {
        if matches!(self.cur_token, Token::LBrace) {
            let stmts = self.parse_block_statements();
            if matches!(self.cur_token, Token::RBrace) {
                self.next_token();
            }
            Some(Statement::Block(stmts))
        } else if matches!(self.cur_token, Token::Fn) {
            self.parse_function_statement(false)
        } else if matches!(self.cur_token, Token::Async) {
            if matches!(self.peek_token, Token::Fn) {
                self.next_token();
                self.parse_function_statement(true)
            } else {
                Some(self.parse_expression_statement())
            }
        } else if matches!(self.cur_token, Token::Identifier(_)) && matches!(self.peek_token, Token::Assign) {
            let name = match &self.cur_token {
                Token::Identifier(n) => n.clone(),
                _ => String::new(),
            };
            self.parse_assign_statement(name)
        } else {
            Some(self.parse_expression_statement())
        }
    }

    #[verifier::spinoff_prover]
    #[verifier::rlimit(80)]
    fn parse_assign_statement(&mut self, name: String) -> (r: Option<Statement>)
        requires
            old(self).wf(),
            !is_eof(old(self).cur_token@),
        ensures
            final(self).wf(),
            advanced(old(self), final(self)),
            r is Some,
            (final(self)@, opt_sv(r)) === p_assign(old(self)@, name@),
        decreases old(self).progress(), 18int,
    {
        self.next_token();
        self.next_token();
        let value = self.parse_expression(Precedence::LOWEST);
        if matches!(self.peek_token, Token::Semicolon) {
            self.next_token();
            self.next_token();
        } else {
            self.next_token();
        }
        Some(Statement::Assign { name, value })
    }

    #[verifier::spinoff_prover]
    #[verifier::rlimit(80)]
    fn parse_expression_statement(&mut self) -> (r: Statement)
        requires
            old(self).wf(),
        ensures
            final(self).wf(),
            advanced(old(self), final(self)),
            (final(self)@, sv(r)) === p_expression_statement(old(self)@),
        decreases old(self).progress(), 18int,
    {
        let expr = self.parse_expression(Precedence::LOWEST);
        if matches!(self.peek_token, Token::Semicolon) {
            self.next_token();
            self.next_token();
        } else {
            self.next_token();
        }
        Statement::Expression(expr)
    }

    #[verifier::spinoff_prover]
    #[verifier::rlimit(80)]
    fn parse_prefix_part(&mut self) -> (r: Expression)
        requires
            old(self).wf(),
        ensures
            final(self).wf(),
            steady(old(self), final(self)),
            (final(self)@, ev(r)) === p_prefix_part(old(self)@),
        decreases old(self).progress(), 15int,
    {
        if matches!(self.cur_token, Token::Identifier(_)) {
            let s = match &self.cur_token {
                Token::Identifier(n) => n.clone(),
                _ => String::new(),
            };
            if matches!(self.peek_token, Token::PlusPlus) {
                self.next_token();
                Expression::Postfix { operator: Token::PlusPlus, operand: s }
            } else if matches!(self.peek_token, Token::MinusMinus) {
                self.next_token();
                Expression::Postfix { operator: Token::MinusMinus, operand: s }
            } else {
                Expression::Identifier(s)
            }
        } else if matches!(self.cur_token, Token::Number(_)) {
            match &self.cur_token {
                Token::Number(n) => Expression::Number(n.clone()),
                _ => Expression::Null,
            }
        } else if matches!(self.cur_token, Token::String(_)) {
            let s = match &self.cur_token {
                Token::String(n) => n.clone(),
                _ => String::new(),
            };
            self.parse_string_with_interpolation(s)
        } else if matches!(self.cur_token, Token::InterpolationStart) {
            let empty = String::new();
            assert(empty@ =~= seq![]);
            self.parse_string_with_interpolation(empty)
        } else if matches!(self.cur_token, Token::Dollar) {
            self.parse_shell_expression()
        } else if matches!(self.cur_token, Token::True) {
            Expression::Boolean(true)
        } else if matches!(self.cur_token, Token::False) {
            Expression::Boolean(false)
        } else if matches!(self.cur_token, Token::Minus) || matches!(self.cur_token, Token::Bang) {
            self.parse_prefix_expression()
        } else if matches!(self.cur_token, Token::LParen) {
            self.parse_paren_or_arrow_expression()
        } else if matches!(self.cur_token, Token::LBracket) {
            self.parse_array_literal()
        } else if matches!(self.cur_token, Token::LBrace) {
            self.parse_object_literal()
        } else if matches!(self.cur_token, Token::Await) {
            self.parse_await_expression()
        } else {
            let t = self.cur_token.duplicate();
            self.error_at_current(ParseError::NoPrefixParse(t));
            Expression::Null
        }
    }

    #[verifier::spinoff_prover]
    #[verifier::rlimit(80)]
    fn parse_expression(&mut self, precedence: Precedence) -> (r: Expression)
        requires
            old(self).wf(),
        ensures
            final(self).wf(),
            steady(old(self), final(self)),
            (final(self)@, ev(r)) === p_expression(old(self)@, precedence),
        decreases old(self).progress(), 16int,
    {
        let mut left_exp = self.parse_prefix_part();
        while !self.peek_token.is_eof() && precedence.level() < self.peek_precedence().level()
            invariant
                self.wf(),
                steady(old(self), self),
                p_operators(self@, precedence, ev(left_exp)) === p_expression(old(self)@, precedence),
            decreases self.progress(),
        {
            if matches!(self.peek_token, Token::Plus) || matches!(self.peek_token, Token::Minus)
                || matches!(self.peek_token, Token::Star) || matches!(self.peek_token, Token::Slash)
                || matches!(self.peek_token, Token::Modulo) || matches!(self.peek_token, Token::Equal)
                || matches!(self.peek_token, Token::NotEqual) || matches!(self.peek_token, Token::LT)
                || matches!(self.peek_token, Token::GT) || matches!(self.peek_token, Token::LTE)
                || matches!(self.peek_token, Token::GTE) {
                self.next_token();
                left_exp = self.parse_infix_expression(left_exp);
            } else if matches!(self.peek_token, Token::LParen) {
                self.next_token();
                left_exp = self.parse_call_expression(left_exp);
            } else if matches!(self.peek_token, Token::LBracket) {
                self.next_token();
                left_exp = self.parse_index_expression(left_exp);
            } else if matches!(self.peek_token, Token::Dot) {
                self.next_token();
                left_exp = self.parse_member_expression(left_exp);
            } else {
                return left_exp;
            }
        }
        left_exp
    }

    #[verifier::spinoff_prover]
    #[verifier::rlimit(80)]
    fn parse_array_literal(&mut self) -> (r: Expression)
        requires
            old(self).wf(),
            !is_eof(old(self).cur_token@),
        ensures
            final(self).wf(),
            advanced(old(self), final(self)),
            (final(self)@, ev(r)) === p_array(old(self)@),
        decreases old(self).progress(), 14int,
    {
        let mut elements: Vec<Expression> = vec![];
        if matches!(self.peek_token, Token::RBracket) {
            self.next_token();
            assert(evs(elements@) =~= seq![]);
            return Expression::Array(elements);
        }
        self.next_token();
        let first = self.parse_expression(Precedence::LOWEST);
        let ghost q2 = self@;
        proof {
            lemma_evs_push(elements@, first);
            assert(evs(elements@) =~= seq![]);
        }
        elements.push(first);
        while matches!(self.peek_token, Token::Comma)
            invariant
                self.wf(),
                self.progress() < old(self).progress(),
                p_list(self@, evs(elements@)) === p_list(q2, seq![ev(first)]),
            decreases self.progress(),
        {
            self.next_token();
            self.next_token();
            let e = self.parse_expression(Precedence::LOWEST);
            proof {
                lemma_evs_push(elements@, e);
            }
            elements.push(e);
        }
        if !self.expect_peek(Token::RBracket) {
            self.error_at_current(ParseError::UnclosedArray);
        }
        Expression::Array(elements)
    }

    #[verifier::spinoff_prover]
    #[verifier::rlimit(80)]
    fn parse_object_literal(&mut self) -> (r: Expression)
        requires
            old(self).wf(),
            !is_eof(old(self).cur_token@),
        ensures
            final(self).wf(),
            advanced(old(self), final(self)),
            (final(self)@, ev(r)) === p_object(old(self)@),
        decreases old(self).progress(), 14int,
    {
        let mut pairs: Vec<(String, Expression)> = vec![];
        assert(pvs(pairs@) =~= seq![]);
        if matches!(self.peek_token, Token::RBrace) {
            self.next_token();
            return Expression::Object(pairs);
        }
        self.next_token();
        let ghost q = self@;
        loop
            invariant_except_break
                p_entries(self@, pvs(pairs@)) === p_entries(q, seq![]),
            invariant
                self.wf(),
                self.progress() < old(self).progress(),
            ensures
                self.wf(),
                self.progress() < old(self).progress(),
                (self@, pvs(pairs@)) === p_entries(q, seq![]),
            decreases self.progress(),
        {
            let key = match &self.cur_token {
                Token::String(s) => s.clone(),
                Token::Identifier(s) => s.clone(),
                _ => {
                    let t = self.cur_token.duplicate();
                    self.error_at_current(ParseError::ExpectedObjectKey(t));
                    break;
                },
            };
            if !self.expect_peek(Token::Colon) {
                self.error_at_current(ParseError::ExpectedColon);
                break;
            }
            self.next_token();
            let value = self.parse_expression(Precedence::LOWEST);
            proof {
                lemma_pvs_push(pairs@, (key, value));
            }
            pairs.push((key, value));
            if matches!(self.peek_token, Token::Comma) {
                self.next_token();
                self.next_token();
            } else {
                break;
            }
        }
        if !self.expect_peek(Token::RBrace) {
            self.error_at_current(ParseError::UnclosedObject);
        }
        Expression::Object(pairs)
    }

    #[verifier::spinoff_prover]
    #[verifier::rlimit(80)]
    fn parse_index_expression(&mut self, left: Expression) -> (r: Expression)
        requires
            old(self).wf(),
            !is_eof(old(self).cur_token@),
        ensures
            final(self).wf(),
            advanced(old(self), final(self)),
            (final(self)@, ev(r)) === p_index(old(self)@, ev(left)),
        decreases old(self).progress(), 14int,
    {
        self.next_token();
        let index = self.parse_expression(Precedence::LOWEST);
        if !self.expect_peek(Token::RBracket) {
            self.error_at_current(ParseError::UnclosedIndex);
        }
        Expression::Index { object: Box::new(left), index: Box::new(index) }
    }

    #[verifier::spinoff_prover]
    #[verifier::rlimit(80)]
    fn parse_member_expression(&mut self, left: Expression) -> (r: Expression)
        requires
            old(self).wf(),
            !is_eof(old(self).cur_token@),
        ensures
            final(self).wf(),
            advanced(old(self), final(self)),
            (final(self)@, ev(r)) === p_member(old(self)@, ev(left)),
    {
        self.next_token();
        match &self.cur_token {
            Token::Identifier(field) => {
                let field = field.clone();
                Expression::Member { object: Box::new(left), field }
            },
            _ => {
                let t = self.cur_token.duplicate();
                self.error_at_current(ParseError::ExpectedFieldName(t));
                Expression::Null
            },
        }
    }

    #[verifier::spinoff_prover]
    #[verifier::rlimit(80)]
    fn parse_await_expression(&mut self) -> (r: Expression)
        requires
            old(self).wf(),
            !is_eof(old(self).cur_token@),
        ensures
            final(self).wf(),
            advanced(old(self), final(self)),
            (final(self)@, ev(r)) === p_await(old(self)@),
        decreases old(self).progress(), 14int,
    {
        self.next_token();
        let expr = self.parse_expression(Precedence::PREFIX);
        Expression::Await(Box::new(expr))
    }

    #[verifier::spinoff_prover]
    #[verifier::rlimit(80)]
    fn parse_string_with_interpolation(&mut self, head: String) -> (r: Expression)
        requires
            old(self).wf(),
        ensures
            final(self).wf(),
            steady(old(self), final(self)),
            (final(self)@, ev(r)) === p_interpolation(old(self)@, head@),
        decreases old(self).progress(), 14int,
    {
        let mut parts: Vec<Expression> = vec![Expression::String(head.clone())];
        proof {
            assert(parts@ =~= seq![Expression::String(head)]);
            lemma_evs_single(Expression::String(head));
        }
        loop
            invariant_except_break
                p_pieces(self@, evs(parts@)) === p_pieces(old(self)@, seq![SExpr::Str(head@)]),
            invariant
                self.wf(),
                steady(old(self), self),
            ensures
                self.wf(),
                steady(old(self), self),
                (self@, evs(parts@)) === p_pieces(old(self)@, seq![SExpr::Str(head@)]),
            decreases self.progress(),
        {
            if !(matches!(self.cur_token, Token::InterpolationStart) || matches!(self.peek_token, Token::InterpolationStart)) {
                break;
            }
            let ghost start = self@;
            let ghost start_progress = self.progress();
            if !matches!(self.cur_token, Token::InterpolationStart) {
                self.next_token();
            }
            self.next_token();
            let e = self.parse_expression(Precedence::LOWEST);
            proof {
                lemma_evs_push(parts@, e);
            }
            parts.push(e);
            let ghost q2 = self@;
            if matches!(self.peek_token, Token::RBrace) {
                self.lexer.resume_string();
                self.next_token();
            } else {
                while !matches!(self.cur_token, Token::RBrace) && !self.cur_token.is_eof()
                    invariant
                        self.wf(),
                        self.progress() < start_progress,
                        p_skip_to_brace(self@) === p_skip_to_brace(q2),
                    decreases self.progress(),
                {
                    self.next_token();
                }
                self.lexer.resume_string();
            }
            assert(self@ === p_close_interpolation(q2));
            self.next_token();
            match &self.cur_token {
                Token::String(s) => {
                    let piece = Expression::String(s.clone());
                    proof {
                        lemma_evs_push(parts@, piece);
                    }
                    parts.push(piece);
                },
                _ => {},
            }
            if self.lexer.current_mode() == LexerMode::Normal && !matches!(self.cur_token, Token::InterpolationStart) {
                break;
            }
        }
        proof {
            lemma_evs_len(parts@);
        }
        if parts.len() == 1 {
            return Expression::String(head);
        }
        Expression::InterpolatedString(parts)
    }

    #[verifier::spinoff_prover]
    #[verifier::rlimit(80)]
    fn parse_if_statement(&mut self) -> (r: Option<Statement>)
        requires
            old(self).wf(),
            !is_eof(old(self).cur_token@),
        ensures
            final(self).wf(),
            advanced(old(self), final(self)),
            (final(self)@, opt_sv(r)) === p_if(old(self)@),
        decreases old(self).progress(), 18int,
    {
        self.next_token();
        let condition = self.parse_expression(Precedence::LOWEST);
        if !self.expect_peek(Token::LBrace) {
            return None;
        }
        let consequence = self.parse_block_statements();
        if matches!(self.cur_token, Token::RBrace) {
            self.next_token();
        }
        let mut alternative: Option<Vec<Statement>> = None;
        if matches!(self.cur_token, Token::Else) {
            if matches!(self.peek_token, Token::If) {
                self.next_token();
                match self.parse_if_statement() {
                    Some(stmt) => {
                        let v = vec![stmt];
                        proof {
                            assert(v@ =~= seq![stmt]);
                            lemma_svs_single(stmt);
                        }
                        alternative = Some(v);
                    },
                    None => {
                        self.aborted = true;
                    },
                }
            } else if matches!(self.peek_token, Token::LBrace) {
                self.next_token();
                alternative = Some(self.parse_block_statements());
                if matches!(self.cur_token, Token::RBrace) {
                    self.next_token();
                }
            }
        }
        Some(Statement::If { condition, consequence, alternative })
    }

    #[verifier::spinoff_prover]
    #[verifier::rlimit(80)]
    fn parse_block_statements(&mut self) -> (r: Vec<Statement>)
        requires
            old(self).wf(),
            !is_eof(old(self).cur_token@),
        ensures
            final(self).wf(),
            advanced(old(self), final(self)),
            (final(self)@, svs(r@)) === p_block(old(self)@),
        decreases old(self).progress(), 12int,
    {
        let mut stmts: Vec<Statement> = vec![];
        self.next_token();
        let ghost q = self@;
        assert(svs(stmts@) =~= seq![]);
        while !matches!(self.cur_token, Token::RBrace) && !self.cur_token.is_eof()
            invariant
                self.wf(),
                self.progress() < old(self).progress(),
                p_stmts(self@, svs(stmts@)) === p_stmts(q, seq![]),
            decreases self.progress(),
        {
            if matches!(self.cur_token, Token::Semicolon) {
                self.next_token();
                continue;
            }
            match self.parse_statement() {
                Some(stmt) => {
                    proof {
                        lemma_svs_push(stmts@, stmt);
                    }
                    stmts.push(stmt);
                },
                None => self.next_token(),
            }
        }
        stmts
    }

    #[verifier::spinoff_prover]
    #[verifier::rlimit(80)]
    fn parse_let_like(&mut self, is_const: bool) -> (r: Option<Statement>)
        requires
            old(self).wf(),
            !is_eof(old(self).cur_token@),
        ensures
            final(self).wf(),
            advanced(old(self), final(self)),
            (final(self)@, opt_sv(r)) === p_let(old(self)@, is_const),
        decreases old(self).progress(), 17int,
    {
        self.next_token();
        match &self.cur_token {
            Token::Identifier(name) => {
                let name = name.clone();
                if !self.expect_peek(Token::Assign) {
                    return None;
                }
                self.next_token();
                let value = self.parse_expression(Precedence::LOWEST);
                if matches!(self.peek_token, Token::Semicolon) {
                    self.next_token();
                }
                self.next_token();
                if is_const {
                    Some(Statement::Const { name, value })
                } else {
                    Some(Statement::Let { name, value })
                }
            },
            _ => None,
        }
    }

    #[verifier::spinoff_prover]
    #[verifier::rlimit(80)]
    fn parse_let_statement(&mut self) -> (r: Option<Statement>)
        requires
            old(self).wf(),
            !is_eof(old(self).cur_token@),
        ensures
            final(self).wf(),
            advanced(old(self), final(self)),
            (final(self)@, opt_sv(r)) === p_let(old(self)@, false),
        decreases old(self).progress(), 18int,
    {
        self.parse_let_like(false)
    }

    #[verifier::spinoff_prover]
    #[verifier::rlimit(80)]
    fn parse_const_statement(&mut self) -> (r: Option<Statement>)
        requires
            old(self).wf(),
            !is_eof(old(self).cur_token@),
        ensures
            final(self).wf(),
            advanced(old(self), final(self)),
            (final(self)@, opt_sv(r)) === p_let(old(self)@, true),
        decreases old(self).progress(), 18int,
    {
        self.parse_let_like(true)
    }

    #[verifier::spinoff_prover]
    #[verifier::rlimit(80)]
    fn parse_return_statement(&mut self) -> (r: Option<Statement>)
        requires
            old(self).wf(),
            !is_eof(old(self).cur_token@),
        ensures
            final(self).wf(),
            advanced(old(self), final(self)),
            (final(self)@, opt_sv(r)) === p_return(old(self)@),
        decreases old(self).progress(), 18int,
    {
        self.next_token();
        let expr = self.parse_expression(Precedence::LOWEST);
        if matches!(self.peek_token, Token::Semicolon) {
            self.next_token();
            self.next_token();
        } else {
            self.next_token();
        }
        Some(Statement::Return(expr))
    }

    #[verifier::spinoff_prover]
    #[verifier::rlimit(80)]
    fn parse_while_statement(&mut self) -> (r: Option<Statement>)
        requires
            old(self).wf(),
            !is_eof(old(self).cur_token@),
        ensures
            final(self).wf(),
            advanced(old(self), final(self)),
            (final(self)@, opt_sv(r)) === p_while(old(self)@),
        decreases old(self).progress(), 18int,
    {
        self.next_token();
        let condition = self.parse_expression(Precedence::LOWEST);
        if !self.expect_peek(Token::LBrace) {
            return None;
        }
        let body = self.parse_block_statements();
        if matches!(self.cur_token, Token::RBrace) {
            self.next_token();
        }
        Some(Statement::While { condition, body })
    }
}

impl Parser {
    /// The first clause of a `for` header, with the `;` after it; `None`
    /// where it is a `let` that does not parse.
    #[verifier::spinoff_prover]
    #[verifier::rlimit(80)]
    fn parse_for_init(&mut self) -> (r: Option<Statement>)
        requires
            old(self).wf(),
        ensures
            final(self).wf(),
            steady(old(self), final(self)),
            (final(self)@, opt_sv(r)) === p_for_init(old(self)@),
        decreases old(self).progress(), 19int,
    {
        if matches!(self.cur_token, Token::Let) {
            self.parse_let_statement()
        } else if matches!(self.cur_token, Token::Semicolon) {
            self.next_token();
            assert(ev(Expression::Null) == SExpr::Null);
            Some(Statement::Expression(Expression::Null))
        } else if matches!(self.cur_token, Token::Identifier(_)) && matches!(self.peek_token, Token::Assign) {
            self.parse_init_assign()
        } else {
            let expr = self.parse_expression(Precedence::LOWEST);
            if matches!(self.peek_token, Token::Semicolon) {
                self.next_token();
            }
            self.next_token();
            Some(Statement::Expression(expr))
        }
    }

    /// The condition of a `for` header, with the `;` after it; an empty one
    /// is `true`.
    #[verifier::spinoff_prover]
    #[verifier::rlimit(80)]
    fn parse_for_condition(&mut self) -> (r: Expression)
        requires
            old(self).wf(),
        ensures
            final(self).wf(),
            steady(old(self), final(self)),
            (final(self)@, ev(r)) === p_for_condition(old(self)@),
        decreases old(self).progress(), 19int,
    {
        if matches!(self.cur_token, Token::Semicolon) {
            self.next_token();
            Expression::Boolean(true)
        } else {
            let cond = self.parse_expression(Precedence::LOWEST);
            if matches!(self.peek_token, Token::Semicolon) {
                self.next_token();
            }
            self.next_token();
            cond
        }
    }

    /// The update clause of a `for` header, leaving `)` as the next token.
    #[verifier::spinoff_prover]
    #[verifier::rlimit(80)]
    fn parse_for_update(&mut self) -> (r: Statement)
        requires
            old(self).wf(),
        ensures
            final(self).wf(),
            steady(old(self), final(self)),
            (final(self)@, sv(r)) === p_for_update(old(self)@),
        decreases old(self).progress(), 19int,
    {
        if matches!(self.cur_token, Token::RParen) {
            assert(ev(Expression::Null) == SExpr::Null);
            Statement::Expression(Expression::Null)
        } else if matches!(self.cur_token, Token::Identifier(_)) {
            self.parse_update_named()
        } else {
            let expr = self.parse_expression(Precedence::LOWEST);
            Statement::Expression(expr)
        }
    }

    #[verifier::spinoff_prover]
    #[verifier::rlimit(80)]
    fn parse_init_assign(&mut self) -> (r: Option<Statement>)
        requires
            old(self).wf(),
            old(self).cur_token@ is Ident,
        ensures
            final(self).wf(),
            steady(old(self), final(self)),
            (final(self)@, opt_sv(r)) === p_init_assign(old(self)@),
        decreases old(self).progress(), 17int,
    {
        let name = match &self.cur_token {
            Token::Identifier(n) => n.clone(),
            _ => String::new(),
        };
        let ghost p0 = self@;
        self.next_token();
        self.next_token();
        assert(self@ === p_next(p_next(p0)));
        assert(crate::compiler::syntax::no_larger(self@, p0));
        let value = self.parse_expression(Precedence::LOWEST);
        if matches!(self.cur_token, Token::Semicolon) || matches!(self.peek_token, Token::Semicolon) {
            if matches!(self.peek_token, Token::Semicolon) {
                self.next_token();
            }
            self.next_token();
        }
        Some(Statement::Assign { name, value })
    }

    #[verifier::spinoff_prover]
    #[verifier::rlimit(80)]
    fn parse_update_named(&mut self) -> (r: Statement)
        requires
            old(self).wf(),
            old(self).cur_token@ is Ident,
        ensures
            final(self).wf(),
            steady(old(self), final(self)),
            (final(self)@, sv(r)) === p_update_named(old(self)@),
        decreases old(self).progress(), 17int,
    {
        if matches!(self.peek_token, Token::Assign) {
            self.parse_update_assign()
        } else if matches!(self.peek_token, Token::PlusPlus) || matches!(self.peek_token, Token::MinusMinus) {
            self.parse_update_step()
        } else {
            let expr = self.parse_expression(Precedence::LOWEST);
            Statement::Expression(expr)
        }
    }

    #[verifier::spinoff_prover]
    #[verifier::rlimit(80)]
    fn parse_update_assign(&mut self) -> (r: Statement)
        requires
            old(self).wf(),
            old(self).cur_token@ is Ident,
            old(self).peek_token@ == tk(Token::Assign),
        ensures
            final(self).wf(),
            steady(old(self), final(self)),
            (final(self)@, sv(r)) === p_update_named(old(self)@),
        decreases old(self).progress(), 16int,
    {
        let name = match &self.cur_token {
            Token::Identifier(n) => n.clone(),
            _ => String::new(),
        };
        self.next_token();
        self.next_token();
        let value = self.parse_expression(Precedence::LOWEST);
        Statement::Assign { name, value }
    }

    #[verifier::spinoff_prover]
    #[verifier::rlimit(80)]
    fn parse_update_step(&mut self) -> (r: Statement)
        requires
            old(self).wf(),
            old(self).cur_token@ is Ident,
            old(self).peek_token@ == tk(Token::PlusPlus) || old(self).peek_token@ == tk(Token::MinusMinus),
        ensures
            final(self).wf(),
            advanced(old(self), final(self)),
            (final(self)@, sv(r)) === p_update_named(old(self)@),
    {
        let name = match &self.cur_token {
            Token::Identifier(n) => n.clone(),
            _ => String::new(),
        };
        let operator = if matches!(self.peek_token, Token::PlusPlus) {
            Token::PlusPlus
        } else {
            Token::MinusMinus
        };
        self.next_token();
        let e = Expression::Postfix { operator, operand: name };
        assert(ev(e) == SExpr::Postfix { operator: operator@, operand: e->operand@ });
        Statement::Expression(e)
    }

    #[verifier::spinoff_prover]
    #[verifier::rlimit(80)]
    fn parse_for_statement(&mut self) -> (r: Option<Statement>)
        requires
            old(self).wf(),
            !is_eof(old(self).cur_token@),
        ensures
            final(self).wf(),
            steady(old(self), final(self)),
            r is Some ==> advanced(old(self), final(self)),
            (final(self)@, opt_sv(r)) === p_for(old(self)@),
        decreases old(self).progress(), 18int,
    {
        if !self.expect_peek(Token::LParen) {
            self.error_at_current(ParseError::ForWithoutParen);
            return None;
        }
        self.next_token();
        let init = match self.parse_for_init() {
            Some(s) => s,
            None => {
                return None;
            },
        };
        self.parse_for_clauses(init)
    }

    #[verifier::spinoff_prover]
    #[verifier::rlimit(100)]
    fn parse_for_clauses(&mut self, init: Statement) -> (r: Option<Statement>)
        requires
            old(self).wf(),
        ensures
            final(self).wf(),
            steady(old(self), final(self)),
            r is Some ==> advanced(old(self), final(self)),
            (final(self)@, opt_sv(r)) === p_for_clauses(old(self)@, sv(init)),
        decreases old(self).progress(), 21int,
    {
        let condition = self.parse_for_condition();
        self.parse_for_tail(init, condition)
    }

    #[verifier::spinoff_prover]
    #[verifier::rlimit(80)]
    fn parse_for_tail(&mut self, init: Statement, condition: Expression) -> (r: Option<Statement>)
        requires
            old(self).wf(),
        ensures
            final(self).wf(),
            steady(old(self), final(self)),
            r is Some ==> advanced(old(self), final(self)),
            (final(self)@, opt_sv(r)) === p_for_tail(old(self)@, sv(init), ev(condition)),
        decreases old(self).progress(), 20int,
    {
        let ghost p0 = self@;
        let ghost gi = sv(init);
        let ghost gc = ev(condition);
        let update = self.parse_for_update();
        let ghost q = self@;
        let ghost gu = sv(update);
        assert(p_for_update(p0) === (q, gu));
        assert(crate::compiler::syntax::no_larger(q, p0));
        assert(p_for_tail(p0, gi, gc) === p_for_body(q, gi, gc, gu));
        self.parse_for_body(init, condition, update)
    }

    #[verifier::spinoff_prover]
    #[verifier::rlimit(80)]
    fn parse_for_body(&mut self, init: Statement, condition: Expression, update: Statement) -> (r: Option<Statement>)
        requires
            old(self).wf(),
        ensures
            final(self).wf(),
            steady(old(self), final(self)),
            r is Some ==> advanced(old(self), final(self)),
            (final(self)@, opt_sv(r)) === p_for_body(old(self)@, sv(init), ev(condition), sv(update)),
        decreases old(self).progress(), 13int,
    {
        if !self.expect_peek(Token::RParen) {
            self.error_at_current(ParseError::ForWithoutCloseParen);
            return None;
        }
        if !self.expect_peek(Token::LBrace) {
            self.error_at_current(ParseError::ForWithoutBody);
            return None;
        }
        let body = self.parse_block_statements();
        if matches!(self.cur_token, Token::RBrace) {
            self.next_token();
        }
        Some(Statement::For { init: Box::new(init), condition, update: Box::new(update), body })
    }

    #[verifier::spinoff_prover]
    #[verifier::rlimit(80)]
    fn parse_function_statement(&mut self, is_async: bool) -> (r: Option<Statement>)
        requires
            old(self).wf(),
            !is_eof(old(self).cur_token@),
        ensures
            final(self).wf(),
            advanced(old(self), final(self)),
            (final(self)@, opt_sv(r)) === p_function(old(self)@, is_async),
        decreases old(self).progress(), 18int,
    {
        self.next_token();
        match &self.cur_token {
            Token::Identifier(name) => {
                let name = name.clone();
                if !self.expect_peek(Token::LParen) {
                    return None;
                }
                let params = self.parse_function_parameters();
                if !self.expect_peek(Token::LBrace) {
                    return None;
                }
                let body = self.parse_block_statements();
                if matches!(self.cur_token, Token::RBrace) {
                    self.next_token();
                }
                Some(Statement::Function { name, params, body, is_async })
            },
            _ => None,
        }
    }

    /// Names separated by commas, from the current token on; the current one
    /// is taken where it is a name.
    #[verifier::spinoff_prover]
    #[verifier::rlimit(80)]
    fn parse_names(&mut self) -> (params: Vec<String>)
        requires
            old(self).wf(),
        ensures
            final(self).wf(),
            steady(old(self), final(self)),
            (final(self)@, names_view(params@)) === p_more_names(old(self)@, push_name(seq![], old(self)@.cur)),
    {
        let mut params: Vec<String> = vec![];
        match &self.cur_token {
            Token::Identifier(s) => {
                let n = s.clone();
                proof {
                    lemma_names_push(params@, n);
                }
                params.push(n);
            },
            _ => {},
        }
        assert(names_view(params@) =~= push_name(seq![], old(self)@.cur));
        while matches!(self.peek_token, Token::Comma)
            invariant
                self.wf(),
                steady(old(self), self),
                p_more_names(self@, names_view(params@)) === p_more_names(old(self)@, push_name(seq![], old(self)@.cur)),
            decreases self.progress(),
        {
            self.next_token();
            self.next_token();
            match &self.cur_token {
                Token::Identifier(s) => {
                    let n = s.clone();
                    proof {
                        lemma_names_push(params@, n);
                    }
                    params.push(n);
                },
                _ => {},
            }
        }
        params
    }

    #[verifier::spinoff_prover]
    #[verifier::rlimit(80)]
    fn parse_function_parameters(&mut self) -> (params: Vec<String>)
        requires
            old(self).wf(),
        ensures
            final(self).wf(),
            advanced(old(self), final(self)),
            (final(self)@, names_view(params@)) === p_params(old(self)@),
    {
        self.next_token();
        if matches!(self.cur_token, Token::RParen) {
            let params: Vec<String> = vec![];
            assert(names_view(params@) =~= seq![]);
            return params;
        }
        let params = self.parse_names();
        self.expect_peek(Token::RParen);
        params
    }

    #[verifier::spinoff_prover]
    #[verifier::rlimit(80)]
    fn parse_call_expression(&mut self, function: Expression) -> (r: Expression)
        requires
            old(self).wf(),
            !is_eof(old(self).cur_token@),
        ensures
            final(self).wf(),
            advanced(old(self), final(self)),
            (final(self)@, ev(r)) === p_call(old(self)@, ev(function)),
        decreases old(self).progress(), 14int,
    {
        let mut arguments: Vec<Expression> = vec![];
        assert(evs(arguments@) =~= seq![]);
        if matches!(self.peek_token, Token::RParen) {
            self.next_token();
            return Expression::Call { function: Box::new(function), arguments };
        }
        self.next_token();
        let first = self.parse_expression(Precedence::LOWEST);
        let ghost q2 = self@;
        proof {
            lemma_evs_push(arguments@, first);
        }
        arguments.push(first);
        while matches!(self.peek_token, Token::Comma)
            invariant
                self.wf(),
                self.progress() < old(self).progress(),
                p_list(self@, evs(arguments@)) === p_list(q2, seq![ev(first)]),
            decreases self.progress(),
        {
            self.next_token();
            self.next_token();
            let e = self.parse_expression(Precedence::LOWEST);
            proof {
                lemma_evs_push(arguments@, e);
            }
            arguments.push(e);
        }
        self.expect_peek(Token::RParen);
        Expression::Call { function: Box::new(function), arguments }
    }

    #[verifier::spinoff_prover]
    #[verifier::rlimit(80)]
    fn parse_infix_expression(&mut self, left: Expression) -> (r: Expression)
        requires
            old(self).wf(),
            !is_eof(old(self).cur_token@),
        ensures
            final(self).wf(),
            advanced(old(self), final(self)),
            (final(self)@, ev(r)) === p_infix(old(self)@, ev(left)),
        decreases old(self).progress(), 14int,
    {
        let operator = self.cur_token.duplicate();
        let precedence = self.cur_precedence();
        self.next_token();
        let right = self.parse_expression(precedence);
        Expression::Binary { left: Box::new(left), operator, right: Box::new(right) }
    }

    #[verifier::spinoff_prover]
    #[verifier::rlimit(80)]
    fn parse_prefix_expression(&mut self) -> (r: Expression)
        requires
            old(self).wf(),
            !is_eof(old(self).cur_token@),
        ensures
            final(self).wf(),
            advanced(old(self), final(self)),
            (final(self)@, ev(r)) === p_prefix(old(self)@),
        decreases old(self).progress(), 14int,
    {
        let operator = self.cur_token.duplicate();
        self.next_token();
        let right = self.parse_expression(Precedence::PREFIX);
        Expression::Prefix { operator, right: Box::new(right) }
    }

    #[verifier::spinoff_prover]
    #[verifier::rlimit(80)]
    fn parse_shell_expression(&mut self) -> (r: Expression)
        requires
            old(self).wf(),
            !is_eof(old(self).cur_token@),
        ensures
            final(self).wf(),
            advanced(old(self), final(self)),
            (final(self)@, ev(r)) === p_shell(old(self)@),
        decreases old(self).progress(), 14int,
    {
        self.next_token();
        let expr = self.parse_expression(Precedence::LOWEST);
        if matches!(self.peek_token, Token::Dollar) {
            self.next_token();
        }
        Expression::Shell(Box::new(expr))
    }

    #[verifier::spinoff_prover]
    #[verifier::rlimit(80)]
    fn parse_import_statement(&mut self) -> (r: Option<Statement>)
        requires
            old(self).wf(),
        ensures
            final(self).wf(),
            advanced(old(self), final(self)),
            (final(self)@, opt_sv(r)) === p_import(old(self)@),
    {
        self.next_token();
        match &self.cur_token {
            Token::String(path) => {
                let path = path.clone();
                self.next_token();
                Some(Statement::Import { path, item: None })
            },
            _ => None,
        }
    }

    #[verifier::spinoff_prover]
    #[verifier::rlimit(80)]
    fn parse_paren_or_arrow_expression(&mut self) -> (r: Expression)
        requires
            old(self).wf(),
            !is_eof(old(self).cur_token@),
        ensures
            final(self).wf(),
            advanced(old(self), final(self)),
            (final(self)@, ev(r)) === p_paren(old(self)@),
        decreases old(self).progress(), 14int,
    {
        let mut lexer_clone = self.lexer.snapshot();
        let mut paren_depth: u128 = 1;
        let mut is_arrow = false;
        let ghost rem0 = remaining(lexer_clone@);
        let mut next = lexer_clone.next_token();
        proof {
            lemma_next_token(self.lexer@);
        }
        while !next.is_eof()
            invariant_except_break
                1 <= paren_depth,
                !is_arrow,
                !is_eof(next@) ==> paren_depth + remaining(lexer_clone@) <= rem0,
                arrow_ahead(self.lexer@, 1) == (if is_eof(next@) {
                    false
                } else {
                    arrow_after(lexer_clone@, next@, paren_depth as int)
                }),
            invariant
                lexer_clone.wf(),
                rem0 == remaining(self.lexer@),
                rem0 <= usize::MAX,
            ensures
                is_arrow == arrow_ahead(self.lexer@, 1),
            decreases remaining(lexer_clone@) + (if is_eof(next@) { 0int } else { 1int }),
        {
            if matches!(next, Token::LParen) {
                paren_depth = paren_depth + 1;
            } else if matches!(next, Token::RParen) {
                paren_depth = paren_depth - 1;
                if paren_depth == 0 {
                    let ghost at = lexer_clone@;
                    if matches!(lexer_clone.next_token(), Token::Arrow) {
                        is_arrow = true;
                    }
                    break;
                }
            }
            let ghost before = lexer_clone@;
            next = lexer_clone.next_token();
            proof {
                lemma_next_token(before);
            }
        }
        if is_arrow {
            self.next_token();
            let params = self.parse_function_parameters_inline();
            self.expect_peek(Token::RParen);
            self.expect_peek(Token::Arrow);
            self.next_token();
            let body = if matches!(self.cur_token, Token::LBrace) {
                self.parse_block_statements()
            } else {
                let e = self.parse_expression(Precedence::LOWEST);
                let v = vec![Statement::Return(e)];
                proof {
                    assert(v@ =~= seq![Statement::Return(e)]);
                    lemma_svs_single(Statement::Return(e));
                }
                v
            };
            Expression::FunctionLiteral { params, body }
        } else {
            self.next_token();
            let expr = self.parse_expression(Precedence::LOWEST);
            self.expect_peek(Token::RParen);
            expr
        }
    }

    #[verifier::spinoff_prover]
    #[verifier::rlimit(80)]
    fn parse_function_parameters_inline(&mut self) -> (params: Vec<String>)
        requires
            old(self).wf(),
        ensures
            final(self).wf(),
            steady(old(self), final(self)),
            (final(self)@, names_view(params@)) === p_inline_params(old(self)@),
    {
        if matches!(self.cur_token, Token::RParen) {
            let params: Vec<String> = vec![];
            assert(names_view(params@) =~= seq![]);
            return params;
        }
        self.parse_names()
    }
}

} // verus!
