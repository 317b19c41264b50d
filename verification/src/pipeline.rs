//! The front-end pipeline: source text to bytecode, with the built-in globals
//! registered first.
use vstd::prelude::*;
use crate::compiler::codegen::{add_symbol, compile_program_spec, constants_view, CView, Compiler};
use crate::compiler::diagnostics::{error_reports, summary_text, DiagnosticReporter};
use crate::compiler::lexer::{read_char, LexState, Lexer, LexerMode, Span};
use crate::compiler::parser::{ParseError, Parser, Statement};
use crate::compiler::syntax::{p_program, parser_start, svs, PView, SParseError, SStmt};
use crate::vm::object::{Constant, SpecConstant};
use crate::vm::opcodes::Opcode;

verus! {

/// Bytecode ready to run: the top-level instructions and the constant pool.
pub struct CompiledProgram {
    pub instructions: Vec<Opcode>,
    pub constants: Vec<Constant>,
}

/// Why a source text did not compile.
pub enum ExecuteError {
    /// The parser reported these errors, each with its position, in order.
    Syntax(Vec<(Span, ParseError)>),
    /// An `else if` whose `if` has no body; parsing cannot go on past it.
    MalformedElseIf,
    /// The program assigns again to this constant.
    ConstReassignment(String),
}

/// A compiler that has compiled nothing.
pub open spec fn empty_compiler() -> CView {
    CView {
        instructions: seq![],
        constants: seq![],
        symbols: seq![],
        globals: seq![],
        global_counter: 0,
        is_function: false,
        upvalues: seq![],
        is_top_level: true,
        const_symbols: seq![],
    }
}

/// The built-in globals, in the order of their indices.
pub open spec fn builtin_names() -> Seq<Seq<char>> {
    seq![
        seq!['p', 'r', 'i', 'n', 't'],
        seq!['l', 'e', 'n'],
        seq!['p', 'u', 's', 'h'],
        seq!['t', 'y', 'p', 'e', 'o', 'f'],
    ]
}

/// `c` with each of `names` declared in turn.
pub open spec fn declare_all(c: CView, names: Seq<Seq<char>>) -> CView
    decreases names.len(),
{
    if names.len() == 0 {
        c
    } else {
        add_symbol(declare_all(c, names.drop_last()), names.last()).0
    }
}

/// The compiler in which programs are compiled: the built-ins declared.
pub open spec fn program_compiler() -> CView {
    declare_all(empty_compiler(), builtin_names())
}

/// The lexer at the start of `source`.
pub open spec fn lexer_start(source: Seq<char>) -> LexState {
    read_char(
        LexState {
            input: source,
            source,
            position: 0,
            read_position: 0,
            ch: '\0',
            mode: LexerMode::Normal,
            line: 1,
            col: 0,
            last_span: Span { line: 1, col: 0 },
        },
    )
}

/// The parser's final state and the statements it returns on `source`.
pub open spec fn parse_result(source: Seq<char>) -> (PView, Seq<SStmt>) {
    p_program(parser_start(lexer_start(source)), seq![])
}

/// The syntax errors of a parse, each with its position, in order.
pub open spec fn reported(p: PView) -> Seq<(Span, SParseError)> {
    Seq::new(p.errors.len(), |i: int| (p.spans[i], p.errors[i]))
}

/// Compiling `stmts` as a whole program gives these instructions and
/// constants.
pub open spec fn compiles_to(stmts: Seq<Statement>, instructions: Seq<Opcode>, constants: Seq<SpecConstant>) -> bool {
    &&& compile_program_spec(program_compiler(), stmts) is Ok
    &&& compile_program_spec(program_compiler(), stmts)->Ok_0.instructions == instructions
    &&& compile_program_spec(program_compiler(), stmts)->Ok_0.constants == constants
}

fn declare(c: &mut Compiler, name: &str)
    requires
        old(c).wf(),
    ensures
        final(c).wf(),
        final(c)@ == add_symbol(old(c)@, name@).0,
{
    let _ = c.add_symbol(name.to_owned());
}

/// Lexes, parses and compiles `source`.
///
/// A malformed `else if` stops everything; otherwise the syntax errors are
/// reported, all of them with their positions; otherwise the parsed program
/// is compiled with `print`, `len`, `push` and `typeof` as globals 0 to 3, and
/// assigning again to a constant is refused.
pub fn execute(source: &str) -> (r: Result<CompiledProgram, ExecuteError>)
    ensures
        (r matches Err(ExecuteError::MalformedElseIf)) <==> parse_result(source@).0.aborted,
        r matches Err(ExecuteError::Syntax(errors)) ==> !parse_result(source@).0.aborted
            && errors@.map_values(|e: (Span, ParseError)| (e.0, e.1@)) == reported(parse_result(source@).0),
        (r matches Err(ExecuteError::Syntax(_))) <==> (!parse_result(source@).0.aborted
            && parse_result(source@).0.errors.len() > 0),
        r matches Ok(prog) ==> exists|stmts: Seq<Statement>|
            svs(stmts) == parse_result(source@).1 && #[trigger] compiles_to(
                stmts,
                prog.instructions@,
                constants_view(prog.constants@),
            ),
        r matches Err(ExecuteError::ConstReassignment(name)) ==> exists|stmts: Seq<Statement>|
            svs(stmts) == parse_result(source@).1 && #[trigger] compile_program_spec(program_compiler(), stmts)
                == Err::<CView, Seq<char>>(name@),
        !parse_result(source@).0.aborted && parse_result(source@).0.errors.len() == 0 ==> (r is Ok
            || r matches Err(ExecuteError::ConstReassignment(_))),
{
    let owned = source.to_owned();
    let lexer = Lexer::new(owned);
    let mut parser = Parser::new(lexer);
    let program = parser.parse_program();
    let ghost parsed = parser@;
    assert(parsed === parse_result(source@).0 && svs(program@) === parse_result(source@).1);
    if parser.aborted() {
        return Err(ExecuteError::MalformedElseIf);
    }
    if parser.errors.len() > 0 {
        return Err(ExecuteError::Syntax(collect_errors(&parser)));
    }
    let r = compile_parsed(&program);
    proof {
        if r is Ok {
            assert(compiles_to(program@, r->Ok_0.instructions@, constants_view(r->Ok_0.constants@)));
        }
    }
    r
}

/// The parser's errors, each with its position.
fn collect_errors(parser: &Parser) -> (pairs: Vec<(Span, ParseError)>)
    requires
        parser.wf(),
    ensures
        pairs@.map_values(|e: (Span, ParseError)| (e.0, e.1@)) == reported(parser@),
{
    let mut pairs: Vec<(Span, ParseError)> = Vec::new();
    let mut i: usize = 0;
    while i < parser.errors.len()
        invariant
            parser.wf(),
            i <= parser.errors@.len(),
            pairs@.map_values(|e: (Span, ParseError)| (e.0, e.1@)) == reported(parser@).take(i as int),
        decreases parser.errors@.len() - i,
    {
        let e = parser.errors[i].duplicate();
        let ghost before = pairs@;
        let x = (parser.spans[i], e);
        pairs.push(x);
        proof {
            assert(pairs@ == before.push(x));
            crate::compiler::codegen::lemma_map_push(before, x, |e: (Span, ParseError)| (e.0, e.1@));
            assert(reported(parser@)[i as int] == (parser.spans@[i as int], parser.errors@[i as int]@));
            assert(reported(parser@).take(i + 1) =~= reported(parser@).take(i as int).push(reported(parser@)[i as int]));
        }
        i = i + 1;
    }
    assert(reported(parser@).take(parser.errors@.len() as int) =~= reported(parser@));
    pairs
}

/// Compiles a parsed program with the built-ins declared first.
fn compile_parsed(program: &Vec<Statement>) -> (r: Result<CompiledProgram, ExecuteError>)
    ensures
        r matches Ok(prog) ==> compiles_to(program@, prog.instructions@, constants_view(prog.constants@)),
        r matches Err(e) ==> e matches ExecuteError::ConstReassignment(name)
            && compile_program_spec(program_compiler(), program@) == Err::<CView, Seq<char>>(name@),
{
    let mut compiler = Compiler::new();
    assert(compiler@ == empty_compiler());
    declare(&mut compiler, "print");
    let ghost c1 = compiler@;
    declare(&mut compiler, "len");
    let ghost c2 = compiler@;
    declare(&mut compiler, "push");
    let ghost c3 = compiler@;
    declare(&mut compiler, "typeof");
    proof {
        reveal_strlit("print");
        reveal_strlit("len");
        reveal_strlit("push");
        reveal_strlit("typeof");
        reveal_with_fuel(declare_all, 5);
        let names = builtin_names();
        assert(names.drop_last().drop_last().drop_last().drop_last() =~= seq![]);
        assert(names.drop_last().drop_last().drop_last() =~= seq![names[0]]);
        assert(names.drop_last().drop_last() =~= seq![names[0], names[1]]);
        assert(names.drop_last() =~= seq![names[0], names[1], names[2]]);
        assert("print"@ == names[0]);
        assert(declare_all(empty_compiler(), seq![]) == empty_compiler());
        assert(declare_all(empty_compiler(), seq![names[0]]) == c1);
        assert(seq![names[0], names[1]].drop_last() =~= seq![names[0]]);
        assert("len"@ == names[1]);
        assert("push"@ == names[2]);
        assert("typeof"@ == names[3]);
        assert(c2 == add_symbol(c1, names[1]).0);
        assert(declare_all(empty_compiler(), seq![names[0], names[1]]) == c2);
        assert(seq![names[0], names[1], names[2]].drop_last() =~= seq![names[0], names[1]]);
        assert(declare_all(empty_compiler(), seq![names[0], names[1], names[2]]) == c3);
        assert(compiler@ == program_compiler());
    }
    match compiler.try_compile(&program) {
        Ok(()) => {
            let prog = CompiledProgram { instructions: compiler.instructions, constants: compiler.constants };
            let ghost prog_i = prog.instructions@;
            let ghost prog_c = prog.constants@;
            let ghost stmts = program@;
            assert(compiles_to(stmts, prog.instructions@, constants_view(prog.constants@)));
            let r: Result<CompiledProgram, ExecuteError> = Ok(prog);
            assert(r->Ok_0.instructions@ == prog_i);
            assert(r->Ok_0.constants@ == prog_c);
            r
        },
        Err(name) => {
            assert(compile_program_spec(program_compiler(), program@) == Err::<CView, Seq<char>>(name@));
            Err(ExecuteError::ConstReassignment(name))
        },
    }
}

/// The report of syntax errors whose messages are rendered: each error's
/// diagnostic, then the count.
pub fn syntax_report(source: &str, filename: &str, errors: &[(Span, String)]) -> (r: String)
    ensures
        r@ == error_reports(source@, filename@, errors@.map_values(|e: (Span, String)| (e.0, e.1@)))
            + summary_text(errors@.len()),
{
    let reporter = DiagnosticReporter::new(source, filename);
    reporter.report_errors(errors)
}

} // verus!
