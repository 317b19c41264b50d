use erox::compiler::codegen::Compiler;
use erox::compiler::diagnostics::DiagnosticReporter;
use erox::compiler::lexer::{Lexer, Span, Token};
use erox::compiler::parser::{Expression, ParseError, Parser, Precedence, Statement};
use erox::compiler::messages::{error_line, error_message, syntax_error_report};
use erox::pipeline::{execute, syntax_report, ExecuteError};
use erox::vm::object::{CompiledFunction, Constant};
use erox::vm::opcodes::Opcode;

fn parse(src: &str) -> (Vec<Statement>, Parser) {
    let mut parser = Parser::new(Lexer::new(src.to_string()));
    let program = parser.parse_program();
    (program, parser)
}

fn ident(s: &str) -> Expression {
    Expression::Identifier(s.to_string())
}

fn number(s: &str) -> Expression {
    Expression::Number(s.to_string())
}

fn binary(l: Expression, op: Token, r: Expression) -> Expression {
    Expression::Binary { left: Box::new(l), operator: op, right: Box::new(r) }
}

#[test]
fn parses_let_with_precedence() {
    let (program, parser) = parse("let x = 1 + 2 * 3;");
    assert!(parser.errors.is_empty());
    assert_eq!(
        program,
        vec![Statement::Let {
            name: "x".to_string(),
            value: binary(number("1"), Token::Plus, binary(number("2"), Token::Star, number("3"))),
        }]
    );
}

#[test]
fn parses_calls_members_and_indexes() {
    let (program, parser) = parse("print(a.b[0], f())");
    assert!(parser.errors.is_empty());
    assert_eq!(
        program,
        vec![Statement::Expression(Expression::Call {
            function: Box::new(ident("print")),
            arguments: vec![
                Expression::Index {
                    object: Box::new(Expression::Member { object: Box::new(ident("a")), field: "b".to_string() }),
                    index: Box::new(number("0")),
                },
                Expression::Call { function: Box::new(ident("f")), arguments: vec![] },
            ],
        })]
    );
}

#[test]
fn parses_if_else_and_while() {
    let (program, parser) = parse("if x < 1 { y = 2 } else { y = 3 } while y { y-- }");
    assert!(parser.errors.is_empty());
    assert_eq!(
        program,
        vec![
            Statement::If {
                condition: binary(ident("x"), Token::LT, number("1")),
                consequence: vec![Statement::Assign { name: "y".to_string(), value: number("2") }],
                alternative: Some(vec![Statement::Assign { name: "y".to_string(), value: number("3") }]),
            },
            Statement::While {
                condition: ident("y"),
                body: vec![Statement::Expression(Expression::Postfix {
                    operator: Token::MinusMinus,
                    operand: "y".to_string(),
                })],
            },
        ]
    );
}

#[test]
fn parses_for_loop() {
    let (program, parser) = parse("for (let i = 0; i < 3; i++) { print(i) }");
    assert!(parser.errors.is_empty());
    assert_eq!(
        program,
        vec![Statement::For {
            init: Box::new(Statement::Let { name: "i".to_string(), value: number("0") }),
            condition: binary(ident("i"), Token::LT, number("3")),
            update: Box::new(Statement::Expression(Expression::Postfix {
                operator: Token::PlusPlus,
                operand: "i".to_string(),
            })),
            body: vec![Statement::Expression(Expression::Call {
                function: Box::new(ident("print")),
                arguments: vec![ident("i")],
            })],
        }]
    );
}

#[test]
fn parses_functions_arrows_and_async() {
    let (program, parser) = parse("async fn go(a, b) { return a } let f = (x) => x * 2");
    assert!(parser.errors.is_empty());
    assert_eq!(
        program,
        vec![
            Statement::Function {
                name: "go".to_string(),
                params: vec!["a".to_string(), "b".to_string()],
                body: vec![Statement::Return(ident("a"))],
                is_async: true,
            },
            Statement::Let {
                name: "f".to_string(),
                value: Expression::FunctionLiteral {
                    params: vec!["x".to_string()],
                    body: vec![Statement::Return(binary(ident("x"), Token::Star, number("2")))],
                },
            },
        ]
    );
}

#[test]
fn parses_literals_and_interpolation() {
    let (program, parser) = parse("[1, \"a\", true]; let o = {k: 1, \"s\": x}; \"v=${v}!\"");
    assert!(parser.errors.is_empty());
    assert_eq!(program.len(), 3);
    assert_eq!(
        program[0],
        Statement::Expression(Expression::Array(vec![number("1"), Expression::String("a".to_string()), Expression::Boolean(true)]))
    );
    assert_eq!(
        program[1],
        Statement::Let {
            name: "o".to_string(),
            value: Expression::Object(vec![("k".to_string(), number("1")), ("s".to_string(), ident("x"))]),
        }
    );
    assert_eq!(
        program[2],
        Statement::Expression(Expression::InterpolatedString(vec![
            Expression::String("v=".to_string()),
            ident("v"),
            Expression::String("!".to_string()),
        ]))
    );
}

#[test]
fn parses_shell_import_and_await() {
    let (program, parser) = parse("import \"net\" $ \"ls\" $ await job()");
    assert!(parser.errors.is_empty());
    assert_eq!(
        program,
        vec![
            Statement::Import { path: "net".to_string(), item: None },
            Statement::Expression(Expression::Shell(Box::new(Expression::String("ls".to_string())))),
            Statement::Expression(Expression::Await(Box::new(Expression::Call {
                function: Box::new(ident("job")),
                arguments: vec![],
            }))),
        ]
    );
}

#[test]
fn reports_syntax_errors_with_positions() {
    let (_, parser) = parse("let x = ;");
    assert_eq!(parser.errors, vec![ParseError::NoPrefixParse(Token::Semicolon)]);
    assert_eq!(parser.spans, vec![Span::new(1, 9)]);
    let (_, parser) = parse("f(1");
    assert_eq!(parser.errors, vec![ParseError::UnexpectedToken { expected: Token::RParen, got: Token::EOF }]);
}

#[test]
fn malformed_else_if_aborts() {
    let (_, parser) = parse("if a { } else if b c");
    assert!(parser.aborted());
}

#[test]
fn precedence_levels_are_ordered() {
    assert!(Precedence::LOWEST.level() < Precedence::EQUALS.level());
    assert!(Precedence::SUM.level() < Precedence::PRODUCT.level());
    assert!(Precedence::CALL.level() < Precedence::INDEX.level());
}

#[test]
fn compiles_global_let() {
    let (program, _) = parse("let x = 1; x");
    let mut c = Compiler::new();
    c.compile(program);
    assert_eq!(
        c.instructions,
        vec![Opcode::OpConstant(0), Opcode::OpSetGlobal(0), Opcode::OpPop, Opcode::OpGetGlobal(0), Opcode::OpPop]
    );
    assert_eq!(c.constants, vec![Constant::Number("1".to_string())]);
}

#[test]
fn compiles_if_else_with_patched_jumps() {
    let (program, _) = parse("if true { 1 } else { 2 }");
    let mut c = Compiler::new();
    c.compile(program);
    assert_eq!(
        c.instructions,
        vec![
            Opcode::OpTrue,
            Opcode::OpJumpIfFalse(5),
            Opcode::OpConstant(0),
            Opcode::OpPop,
            Opcode::OpJump(7),
            Opcode::OpConstant(1),
            Opcode::OpPop,
        ]
    );
}

#[test]
fn compiles_functions_into_constants() {
    let (program, _) = parse("fn id(a) { return a }");
    let mut c = Compiler::new();
    c.compile(program);
    assert_eq!(
        c.constants,
        vec![Constant::Function(CompiledFunction {
            name: "id".to_string(),
            instructions: vec![Opcode::OpGetLocal(0), Opcode::OpReturnValue],
            num_locals: 1,
            num_upvalues: 0,
            is_async: false,
        })]
    );
    assert_eq!(c.instructions, vec![Opcode::OpConstant(0), Opcode::OpSetGlobal(0), Opcode::OpPop]);
}

#[test]
fn closures_capture_enclosing_locals() {
    let (program, _) = parse("fn outer(a) { let g = (b) => a; return g }");
    let mut c = Compiler::new();
    c.compile(program);
    match &c.constants[1] {
        Constant::Function(f) => {
            assert_eq!(
                f.instructions,
                vec![
                    Opcode::OpClosure(0, 1),
                    Opcode::OpGetLocal(0),
                    Opcode::OpSetLocal(1),
                    Opcode::OpPop,
                    Opcode::OpGetLocal(1),
                    Opcode::OpReturnValue,
                ]
            );
        }
        other => panic!("expected a function, got {:?}", other),
    }
    match &c.constants[0] {
        Constant::Function(f) => {
            assert_eq!(f.name, "anonymous");
            assert_eq!(f.instructions, vec![Opcode::OpGetUpvalue(0), Opcode::OpReturnValue]);
            assert_eq!(f.num_locals, 1);
            assert_eq!(f.num_upvalues, 1);
        }
        other => panic!("expected a function, got {:?}", other),
    }
}

#[test]
fn declaring_a_name_twice_keeps_its_index() {
    let mut c = Compiler::new();
    assert_eq!(c.add_symbol("a".to_string()), 0);
    assert_eq!(c.add_symbol("b".to_string()), 1);
    assert_eq!(c.add_symbol("a".to_string()), 0);
    assert_eq!(c.global_counter, 2);
}

#[test]
fn const_reassignment_is_refused() {
    let (program, _) = parse("const k = 1; k = 2");
    let mut c = Compiler::new();
    assert_eq!(c.try_compile(&program), Err("k".to_string()));
}

#[test]
fn execute_registers_builtins_first() {
    match execute("let x = print; x") {
        Ok(prog) => {
            assert_eq!(
                prog.instructions,
                vec![
                    Opcode::OpGetGlobal(0),
                    Opcode::OpSetGlobal(4),
                    Opcode::OpPop,
                    Opcode::OpGetGlobal(4),
                    Opcode::OpPop,
                ]
            );
            assert!(prog.constants.is_empty());
        }
        Err(_) => panic!("expected a program"),
    }
    match execute("typeof(push, len)") {
        Ok(prog) => assert_eq!(
            prog.instructions,
            vec![Opcode::OpGetGlobal(3), Opcode::OpGetGlobal(2), Opcode::OpGetGlobal(1), Opcode::OpCall(2), Opcode::OpPop]
        ),
        Err(_) => panic!("expected a program"),
    }
}

#[test]
fn execute_reports_each_error_kind() {
    match execute("let x 5") {
        Err(ExecuteError::Syntax(errors)) => {
            assert_eq!(errors.len(), 1);
            assert_eq!(errors[0].1, ParseError::UnexpectedToken { expected: Token::Assign, got: Token::Number("5".to_string()) });
        }
        _ => panic!("expected a syntax error"),
    }
    assert!(matches!(execute("if a { } else if b c"), Err(ExecuteError::MalformedElseIf)));
    match execute("const k = 1; k = 2") {
        Err(ExecuteError::ConstReassignment(name)) => assert_eq!(name, "k"),
        _ => panic!("expected a refused reassignment"),
    }
}

/// The expected report for a position, computed directly from the format.
fn reference_report(source: &str, filename: &str, level: &str, span: Span, message: &str, color: &str) -> String {
    let reset = "\x1b[0m";
    let dim = "\x1b[2m";
    let bold = "\x1b[1m";
    let cyan = "\x1b[36m";
    let get_line = |line: usize| source.lines().nth(line.saturating_sub(1));
    let mut output = format!(
        "\n{bold}{color}[{level}]{reset} {bold}→ {cyan}{file}:{line}:{col}{reset} {dim}|{reset} {message}\n",
        bold = bold, color = color, level = level, reset = reset, cyan = cyan, file = filename,
        line = span.line, col = span.col, dim = dim, message = message
    );
    if let Some(line_text) = get_line(span.line) {
        let line_num = format!("{}", span.line);
        let padding = " ".repeat(line_num.len());
        if span.line > 1 {
            if let Some(prev_line) = get_line(span.line - 1) {
                output.push_str(&format!("  {dim}{:>width$} │{reset} {}\n", span.line - 1, prev_line, dim = dim, reset = reset, width = line_num.len()));
            }
        }
        output.push_str(&format!("  {bold}{}{reset} {dim}│{reset} {}\n", line_num, line_text, bold = bold, reset = reset, dim = dim));
        let pointer_offset = if span.col > 0 { span.col - 1 } else { 0 };
        let pointer = format!("{}{color}^{reset}", " ".repeat(pointer_offset), color = color, reset = reset);
        output.push_str(&format!("  {} {dim}│{reset} {}\n", padding, pointer, dim = dim, reset = reset));
        if let Some(next_line) = get_line(span.line + 1) {
            output.push_str(&format!("  {dim}{:>width$} │{reset} {}\n", span.line + 1, next_line, dim = dim, reset = reset, width = line_num.len()));
        }
    }
    output
}

#[test]
fn error_report_quotes_neighbouring_lines() {
    let source: String = (1..=12).map(|i| format!("line {}\n", i)).collect();
    let reporter = DiagnosticReporter::new(&source, "main.erx");
    for line in [0usize, 1, 2, 9, 10, 12, 13, 40] {
        let span = Span::new(line, 3);
        assert_eq!(
            reporter.report_error(span, "boom"),
            reference_report(&source, "main.erx", "Error", span, "boom", "\x1b[31m")
        );
    }
}

#[test]
fn warning_report_is_yellow() {
    let reporter = DiagnosticReporter::new("let x = 1", "w.erx");
    let span = Span::new(1, 0);
    assert_eq!(
        reporter.report_warning(span, "unused"),
        reference_report("let x = 1", "w.erx", "Warning", span, "unused", "\x1b[33m")
    );
}

#[test]
fn report_errors_ends_with_a_count() {
    let reporter = DiagnosticReporter::new("a\nb", "f.erx");
    let errors = vec![(Span::new(1, 1), "one".to_string()), (Span::new(2, 1), "two".to_string())];
    let expected = format!(
        "{}{}\n\x1b[1m\x1b[31m✗ 2 error(s) found\x1b[0m\n",
        reference_report("a\nb", "f.erx", "Error", Span::new(1, 1), "one", "\x1b[31m"),
        reference_report("a\nb", "f.erx", "Error", Span::new(2, 1), "two", "\x1b[31m"),
    );
    assert_eq!(reporter.report_errors(&errors), expected);
    assert_eq!(syntax_report("a\nb", "f.erx", &errors), expected);
    assert_eq!(reporter.report_errors(&[]), "\n\x1b[1m\x1b[31m✗ 0 error(s) found\x1b[0m\n");
}

#[test]
fn get_line_counts_from_one() {
    let reporter = DiagnosticReporter::new("x\ny", "f");
    assert_eq!(reporter.get_line(0), Some("x".to_string()));
    assert_eq!(reporter.get_line(2), Some("y".to_string()));
    assert_eq!(reporter.get_line(3), None);
}

#[test]
fn parsing_recovers_after_an_error() {
    let (program, parser) = parse("let x = ; let y = 2;");
    assert_eq!(parser.errors, vec![ParseError::NoPrefixParse(Token::Semicolon)]);
    assert_eq!(
        program,
        vec![
            Statement::Let { name: "x".to_string(), value: Expression::Null },
            Statement::Let { name: "y".to_string(), value: number("2") },
        ]
    );
}

#[test]
fn empty_parentheses_are_not_an_arrow_head() {
    let (program, parser) = parse("let g = () => 1");
    assert_eq!(
        parser.errors,
        vec![
            ParseError::NoPrefixParse(Token::RParen),
            ParseError::UnexpectedToken { expected: Token::RParen, got: Token::Arrow },
            ParseError::NoPrefixParse(Token::Arrow),
        ]
    );
    assert_eq!(
        program,
        vec![
            Statement::Let { name: "g".to_string(), value: Expression::Null },
            Statement::Expression(Expression::Null),
            Statement::Expression(number("1")),
        ]
    );
}

#[test]
fn prefix_minus_and_bang() {
    let (program, parser) = parse("-a; !b");
    assert!(parser.errors.is_empty());
    assert_eq!(
        program,
        vec![
            Statement::Expression(Expression::Prefix { operator: Token::Minus, right: Box::new(ident("a")) }),
            Statement::Expression(Expression::Prefix { operator: Token::Bang, right: Box::new(ident("b")) }),
        ]
    );
    let mut c = Compiler::new();
    c.compile(program);
    assert_eq!(
        c.instructions,
        vec![
            Opcode::OpGetGlobal(0),
            Opcode::OpConstant(0),
            Opcode::OpSub,
            Opcode::OpPop,
            Opcode::OpGetGlobal(1),
            Opcode::OpNot,
            Opcode::OpPop,
        ]
    );
    assert_eq!(c.constants, vec![Constant::Number("0".to_string())]);
}

#[test]
fn comparison_binds_looser_than_sum() {
    let (program, _) = parse("a + 1 == b * 2");
    assert_eq!(
        program,
        vec![Statement::Expression(binary(
            binary(ident("a"), Token::Plus, number("1")),
            Token::Equal,
            binary(ident("b"), Token::Star, number("2")),
        ))]
    );
}

fn jumps_land_inside(code: &[Opcode]) -> bool {
    code.iter().all(|op| match op {
        Opcode::OpJump(t) | Opcode::OpJumpIfFalse(t) | Opcode::OpTryStart(t) => *t <= code.len(),
        _ => true,
    })
}

#[test]
fn compiled_jumps_stay_inside_their_code() {
    let (program, parser) = parse(
        "let n = 0 while n < 3 { if n == 1 { n = n + 2 } else { n++ } } \
         fn f(a) { for (let i = 0; i < a; i++) { if i { return i } } return a }",
    );
    assert!(parser.errors.is_empty());
    let mut compiler = Compiler::new();
    compiler.compile(program);
    assert!(compiler.instructions.iter().any(|op| matches!(op, Opcode::OpJumpIfFalse(_))));
    assert!(jumps_land_inside(&compiler.instructions));
    let mut bodies = 0;
    for k in &compiler.constants {
        if let Constant::Function(f) = k {
            bodies += 1;
            assert!(f.instructions.iter().any(|op| matches!(op, Opcode::OpJump(_))));
            assert!(jumps_land_inside(&f.instructions));
        }
    }
    assert_eq!(bodies, 1);
}

#[test]
fn a_captured_variable_keeps_one_upvalue_slot() {
    let (program, parser) = parse("fn outer(a) { let g = (x) => a + a * a; return g }");
    assert!(parser.errors.is_empty());
    let mut c = Compiler::new();
    c.compile(program);
    match &c.constants[0] {
        Constant::Function(f) => {
            assert_eq!(f.name, "anonymous");
            assert_eq!(f.num_upvalues, 1);
            assert_eq!(
                f.instructions,
                vec![
                    Opcode::OpGetUpvalue(0),
                    Opcode::OpGetUpvalue(0),
                    Opcode::OpGetUpvalue(0),
                    Opcode::OpMul,
                    Opcode::OpAdd,
                    Opcode::OpReturnValue,
                ]
            );
        }
        other => panic!("expected a function, got {:?}", other),
    }
    match &c.constants[1] {
        Constant::Function(f) => {
            assert_eq!(f.instructions[0], Opcode::OpClosure(0, 1));
            assert_eq!(f.instructions[1], Opcode::OpGetLocal(0));
        }
        other => panic!("expected a function, got {:?}", other),
    }
}

#[test]
fn execute_reports_the_text_of_each_syntax_error() {
    let errors = match execute(")") {
        Err(ExecuteError::Syntax(errors)) => errors,
        _ => panic!("expected syntax errors"),
    };
    let numbers = vec![(String::new(), String::new()); errors.len()];
    let report = syntax_error_report(")", "t.erx", &errors, &numbers);
    let expected = DiagnosticReporter::new(")", "t.erx")
        .report_errors(&[(Span::new(1, 1), "[1:1] No prefix parse function for RParen".to_string())]);
    assert_eq!(report, expected);
}

#[test]
fn error_lines_show_tokens_as_debug_text() {
    let e = ParseError::UnexpectedToken {
        expected: Token::Identifier(String::new()),
        got: Token::Number("5".to_string()),
    };
    assert_eq!(
        error_line(&e, Span::new(1, 5), "", "5.0"),
        "[1:5] Expected Identifier(\"\"), got Number(5.0) instead"
    );
    let e = ParseError::ExpectedFieldName(Token::String("a\"b".to_string()));
    assert_eq!(error_message(&e, "", ""), "Expected field name after `.`, got String(\"a\\\"b\")");
    assert_eq!(error_message(&ParseError::ForWithoutBody, "", ""), "Expected `{` for for-loop body");
}

#[test]
fn a_warning_is_the_error_in_other_colours() {
    let r = DiagnosticReporter::new("let a = 1\nlet b = (\nlet c = 3", "w.erx");
    let span = Span::new(2, 9);
    let error = r.report_error(span, "unclosed");
    let warning = r.report_warning(span, "unclosed");
    assert_eq!(warning, error.replacen("[Error]", "[Warning]", 1).replace("\x1b[31m", "\x1b[33m"));
}

#[test]
fn compiling_in_parts_is_compiling_at_once() {
    let (a, _) = parse("let n = 0 while n < 2 { n++ }");
    let (b, _) = parse("if n { print(n) } else { print(0) } fn f(x) { return x + 1 }");
    let (ab, _) = parse("let n = 0 while n < 2 { n++ } if n { print(n) } else { print(0) } fn f(x) { return x + 1 }");
    let mut parts = Compiler::new();
    parts.compile(a);
    let before = parts.instructions.clone();
    parts.compile(b);
    let mut whole = Compiler::new();
    whole.compile(ab);
    assert_eq!(parts.instructions, whole.instructions);
    assert_eq!(parts.constants, whole.constants);
    assert_eq!(parts.global_symbols, whole.global_symbols);
    assert_eq!(parts.global_counter, whole.global_counter);
    assert_eq!(&parts.instructions[..before.len()], &before[..]);
    for op in &parts.instructions[before.len()..] {
        if let Opcode::OpJump(t) | Opcode::OpJumpIfFalse(t) = op {
            assert!(*t >= before.len());
        }
    }
    for op in &parts.instructions {
        if let Opcode::OpConstant(k) | Opcode::OpClosure(k, _) = op {
            assert!(*k < parts.constants.len());
        }
    }
}
