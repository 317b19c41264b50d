//! The EROX bytecode compiler: walks the syntax tree and emits instructions,
//! resolving names to globals, locals or captured upvalues, with a constant
//! pool shared by all function bodies of a program.
//!
//! Function bodies are compiled by a child compiler; the compilers of the
//! enclosing functions form a chain (outermost first) that name resolution
//! walks to capture variables.
use vstd::prelude::*;
use crate::compiler::lexer::Token;
use crate::compiler::parser::{Expression, Statement};
use crate::vm::object::{CompiledFunction, Constant, SpecConstant};
use crate::vm::opcodes::Opcode;
use crate::text::str_eq;
use crate::compiler::code_laws::{
    bodies_in_bounds, constants_below, jumps_in_bounds, law_constants_stay_in_pool, law_jumps_stay_in_code,
};

verus! {

pub struct Compiler {
    pub instructions: Vec<Opcode>,
    pub constants: Vec<Constant>,
    pub symbols: Vec<String>,
    /// Globals: name and stable index, shared with and inherited by child
    /// compilers.
    pub global_symbols: Vec<(String, usize)>,
    pub global_counter: usize,
    pub is_function: bool,
    pub upvalues: Vec<UpvalueInfo>,
    pub is_top_level: bool,
    pub const_symbols: Vec<String>,
}

/// Where a captured variable comes from: a local of the enclosing function
/// (`is_local`) or one of its own upvalues.
#[derive(Debug, Clone, Copy, PartialEq, Eq, Structural)]
pub struct UpvalueInfo {
    pub index: usize,
    pub is_local: bool,
}

#[derive(Debug, Clone, Copy, PartialEq, Eq, Structural)]
pub enum SymbolScope {
    Global(usize),
    Local(usize),
    Upvalue(usize),
}

/// A compiler's state with its strings as character sequences.
pub struct CView {
    pub instructions: Seq<Opcode>,
    pub constants: Seq<SpecConstant>,
    pub symbols: Seq<Seq<char>>,
    pub globals: Seq<(Seq<char>, usize)>,
    pub global_counter: usize,
    pub is_function: bool,
    pub upvalues: Seq<UpvalueInfo>,
    pub is_top_level: bool,
    pub const_symbols: Seq<Seq<char>>,
}

pub open spec fn strings_view(v: Seq<String>) -> Seq<Seq<char>> {
    v.map_values(|s: String| s@)
}

pub open spec fn globals_view(v: Seq<(String, usize)>) -> Seq<(Seq<char>, usize)> {
    v.map_values(|p: (String, usize)| (p.0@, p.1))
}

pub open spec fn constants_view(v: Seq<Constant>) -> Seq<SpecConstant> {
    v.map_values(|c: Constant| c@)
}

impl View for Compiler {
    type V = CView;

    open spec fn view(&self) -> CView {
        CView {
            instructions: self.instructions@,
            constants: constants_view(self.constants@),
            symbols: strings_view(self.symbols@),
            globals: globals_view(self.global_symbols@),
            global_counter: self.global_counter,
            is_function: self.is_function,
            upvalues: self.upvalues@,
            is_top_level: self.is_top_level,
            const_symbols: strings_view(self.const_symbols@),
        }
    }
}

/// The compilation state: the current compiler, the compilers of the
/// enclosing functions (outermost first), and the program's constant pool.
pub struct CState {
    pub cur: CView,
    pub chain: Seq<CView>,
    pub pool: Seq<SpecConstant>,
}

pub open spec fn chain_view(v: Seq<Compiler>) -> Seq<CView> {
    v.map_values(|c: Compiler| c@)
}

pub open spec fn cstate(c: Compiler, chain: Seq<Compiler>, pool: Seq<Constant>) -> CState {
    CState { cur: c@, chain: chain_view(chain), pool: constants_view(pool) }
}

/// A compiler for top-level code with nothing compiled or declared.
pub open spec fn fresh_view() -> CView {
    CView {
        instructions: seq![],
        constants: seq![],
        symbols: seq![],
        globals: seq![],
        global_counter: 0,
        is_function: false,
        upvalues: seq![],
        is_top_level: true,
        const_symbols: seq![],
    }
}

/// No two entries of `s` are equal.
pub open spec fn distinct<A>(s: Seq<A>) -> bool {
    forall|i: int, j: int| 0 <= i < j < s.len() ==> s[i] != s[j]
}

/// Each global's index is its position, and no name is declared twice: not
/// among the globals, the locals or the constants.
#[verifier::opaque]
pub open spec fn names_kept(
    globals: Seq<(Seq<char>, usize)>,
    symbols: Seq<Seq<char>>,
    const_symbols: Seq<Seq<char>>,
) -> bool {
    &&& forall|i: int| 0 <= i < globals.len() ==> #[trigger] globals[i].1 == i
    &&& distinct(global_names(globals))
    &&& distinct(symbols)
    &&& distinct(const_symbols)
}

/// The global counter is the number of globals (so the next index is fresh),
/// and the names are kept as `names_kept` says.
pub open spec fn view_wf(c: CView) -> bool {
    c.global_counter == c.globals.len() && names_kept(c.globals, c.symbols, c.const_symbols)
}

pub open spec fn chain_wf(chain: Seq<CView>) -> bool {
    forall|i: int| 0 <= i < chain.len() ==> view_wf(#[trigger] chain[i])
}

pub open spec fn state_wf(st: CState) -> bool {
    &&& view_wf(st.cur)
    &&& chain_wf(st.chain)
}

/// The first index at which `x` occurs in `s`.
pub open spec fn index_of<A>(s: Seq<A>, x: A) -> Option<int>
    decreases s.len(),
{
    if s.len() == 0 {
        None
    } else {
        match index_of(s.drop_last(), x) {
            Some(i) => Some(i),
            None => if s.last() == x { Some(s.len() - 1) } else { None },
        }
    }
}

pub open spec fn global_names(gs: Seq<(Seq<char>, usize)>) -> Seq<Seq<char>> {
    gs.map_values(|p: (Seq<char>, usize)| p.0)
}

/// The index recorded for a global name.
pub open spec fn lookup_global(gs: Seq<(Seq<char>, usize)>, name: Seq<char>) -> Option<usize> {
    match index_of(global_names(gs), name) {
        Some(i) => Some(gs[i].1),
        None => None,
    }
}

/// Declares a name: a global (with the next index) in top-level code, a local
/// slot in a function; a name already declared keeps its index.
pub open spec fn add_symbol(c: CView, name: Seq<char>) -> (CView, usize) {
    if c.is_top_level {
        match lookup_global(c.globals, name) {
            Some(i) => (c, i),
            None => (
                CView {
                    globals: c.globals.push((name, c.global_counter)),
                    global_counter: (c.global_counter + 1) as usize,
                    ..c
                },
                c.global_counter,
            ),
        }
    } else {
        match index_of(c.symbols, name) {
            Some(p) => (c, p as usize),
            None => (CView { symbols: c.symbols.push(name), ..c }, c.symbols.len() as usize),
        }
    }
}

/// Records a captured variable, reusing an equal entry.
pub open spec fn add_upvalue(c: CView, index: usize, is_local: bool) -> (CView, usize) {
    let u = UpvalueInfo { index, is_local };
    match index_of(c.upvalues, u) {
        Some(i) => (c, i as usize),
        None => (CView { upvalues: c.upvalues.push(u), ..c }, c.upvalues.len() as usize),
    }
}

/// Resolves a name: a local of the current function, then a global, then a
/// variable of an enclosing function (captured as an upvalue, through every
/// function in between); an unknown name is declared with `add_symbol` and
/// reported as global.
pub open spec fn resolve(c: CView, chain: Seq<CView>, name: Seq<char>) -> (CView, Seq<CView>, SymbolScope)
    decreases chain.len(),
{
    if !c.is_top_level && index_of(c.symbols, name) is Some {
        (c, chain, SymbolScope::Local(index_of(c.symbols, name).unwrap() as usize))
    } else if lookup_global(c.globals, name) is Some {
        (c, chain, SymbolScope::Global(lookup_global(c.globals, name).unwrap()))
    } else if chain.len() > 0 {
        let (p, rest, scope) = resolve(chain.last(), chain.drop_last(), name);
        let chain2 = rest.push(p);
        match scope {
            SymbolScope::Local(i) => {
                let (c2, u) = add_upvalue(c, i, true);
                (c2, chain2, SymbolScope::Upvalue(u))
            },
            SymbolScope::Upvalue(i) => {
                let (c2, u) = add_upvalue(c, i, false);
                (c2, chain2, SymbolScope::Upvalue(u))
            },
            SymbolScope::Global(i) => (c, chain2, SymbolScope::Global(i)),
        }
    } else {
        let (c2, i) = add_symbol(c, name);
        (c2, chain, SymbolScope::Global(i))
    }
}

pub open spec fn emit_view(c: CView, op: Opcode) -> CView {
    CView { instructions: c.instructions.push(op), ..c }
}

pub open spec fn emit(st: CState, op: Opcode) -> CState {
    CState { cur: emit_view(st.cur, op), ..st }
}

/// Replaces the instruction at `idx` (a jump whose target is now known).
pub open spec fn patch(st: CState, idx: int, op: Opcode) -> CState {
    CState { cur: CView { instructions: st.cur.instructions.update(idx, op), ..st.cur }, ..st }
}

pub open spec fn here(st: CState) -> usize {
    st.cur.instructions.len() as usize
}

pub open spec fn add_constant(st: CState, k: SpecConstant) -> (CState, usize) {
    (CState { pool: st.pool.push(k), ..st }, st.pool.len() as usize)
}

/// Emits a load of constant `k`.
pub open spec fn emit_constant(st: CState, k: SpecConstant) -> CState {
    let (st2, i) = add_constant(st, k);
    emit(st2, Opcode::OpConstant(i))
}

pub open spec fn store_op(c: CView, idx: usize) -> Opcode {
    if c.is_top_level { Opcode::OpSetGlobal(idx) } else { Opcode::OpSetLocal(idx) }
}

/// Declares `name` and stores the value on the stack into it, then pops it.
pub open spec fn define_view(c: CView, name: Seq<char>) -> CView {
    let (c2, idx) = add_symbol(c, name);
    emit_view(emit_view(c2, store_op(c2, idx)), Opcode::OpPop)
}

pub open spec fn define(st: CState, name: Seq<char>) -> CState {
    CState { cur: define_view(st.cur, name), ..st }
}

pub open spec fn resolve_in(st: CState, name: Seq<char>) -> (CState, SymbolScope) {
    let (c, chain, scope) = resolve(st.cur, st.chain, name);
    (CState { cur: c, chain, pool: st.pool }, scope)
}

pub open spec fn get_op(scope: SymbolScope) -> Opcode {
    match scope {
        SymbolScope::Global(i) => Opcode::OpGetGlobal(i),
        SymbolScope::Local(i) => Opcode::OpGetLocal(i),
        SymbolScope::Upvalue(i) => Opcode::OpGetUpvalue(i),
    }
}

pub open spec fn set_op(scope: SymbolScope) -> Opcode {
    match scope {
        SymbolScope::Global(i) => Opcode::OpSetGlobal(i),
        SymbolScope::Local(i) => Opcode::OpSetLocal(i),
        SymbolScope::Upvalue(i) => Opcode::OpSetUpvalue(i),
    }
}

/// A fresh child compiler for a function body inside `parent`.
pub open spec fn child_view(parent: CView) -> CView {
    CView {
        instructions: seq![],
        constants: seq![],
        symbols: seq![],
        globals: parent.globals,
        global_counter: parent.global_counter,
        is_function: true,
        upvalues: seq![],
        is_top_level: false,
        const_symbols: parent.const_symbols,
    }
}

pub open spec fn add_params(c: CView, params: Seq<String>) -> CView
    decreases params.len(),
{
    if params.len() == 0 {
        c
    } else {
        add_symbol(add_params(c, params.subrange(0, params.len() - 1)), params[params.len() - 1]@).0
    }
}

/// Starts compiling a function body: the child becomes current and the
/// current compiler joins the chain.
pub open spec fn enter_function(st: CState, params: Seq<String>) -> CState {
    CState { cur: add_params(child_view(st.cur), params), chain: st.chain.push(st.cur), pool: st.pool }
}

/// Ends a function body: the enclosing compiler is current again and takes
/// over the child's globals.
pub open spec fn leave_function(st: CState) -> CState {
    let parent = st.chain.last();
    CState {
        cur: CView { globals: st.cur.globals, global_counter: st.cur.global_counter, ..parent },
        chain: st.chain.drop_last(),
        pool: st.pool,
    }
}

pub open spec fn function_constant(name: Seq<char>, child: CView, is_async: bool) -> SpecConstant {
    SpecConstant::Function {
        name,
        instructions: child.instructions,
        num_locals: child.symbols.len() as usize,
        num_upvalues: child.upvalues.len() as usize,
        is_async,
    }
}

/// The instruction that tells `OpClosure` where a captured variable lives.
pub open spec fn descriptor(u: UpvalueInfo) -> Opcode {
    if u.is_local { Opcode::OpGetLocal(u.index) } else { Opcode::OpGetUpvalue(u.index) }
}

pub open spec fn emit_descriptors_view(c: CView, uvs: Seq<UpvalueInfo>) -> CView {
    CView { instructions: c.instructions + uvs.map_values(|u: UpvalueInfo| descriptor(u)), ..c }
}

pub open spec fn emit_descriptors(st: CState, uvs: Seq<UpvalueInfo>) -> CState {
    CState { cur: emit_descriptors_view(st.cur, uvs), ..st }
}

/// Registers a compiled function body as a constant and emits the closure
/// (or plain constant load) that creates the function at run time.
pub open spec fn register_function(st: CState, child: CView, name: Seq<char>, is_async: bool, always_closure: bool) -> CState {
    let (st2, k) = add_constant(st, function_constant(name, child, is_async));
    if always_closure || child.upvalues.len() > 0 {
        emit_descriptors(emit(st2, Opcode::OpClosure(k, child.upvalues.len() as usize)), child.upvalues)
    } else {
        emit(st2, Opcode::OpConstant(k))
    }
}

/// After a function body: back to the enclosing compiler, then register.
pub open spec fn finish_function(inner: CState, name: Seq<char>, is_async: bool, always_closure: bool) -> CState {
    register_function(leave_function(inner), inner.cur, name, is_async, always_closure)
}

/// The compilers in the chain keep their instructions (name resolution only
/// adds symbols and upvalues to them).
pub open spec fn chain_frozen(before: Seq<CView>, after: Seq<CView>) -> bool {
    &&& after.len() == before.len()
    &&& forall|i: int| 0 <= i < before.len() ==> #[trigger] after[i].instructions == before[i].instructions
}

/// A compile step's result agrees with the spec: on success the state is the
/// spec's (and consistent); on failure the spec fails with the same name.
pub open spec fn agrees(r: Result<(), String>, expected: Result<CState, Seq<char>>, after: CState) -> bool {
    match r {
        Ok(_) => expected == Ok::<CState, Seq<char>>(after) && state_wf(after),
        Err(e) => expected == Err::<CState, Seq<char>>(e@),
    }
}

pub open spec fn binary_op(t: Token) -> Option<Opcode> {
    match t {
        Token::Plus => Some(Opcode::OpAdd),
        Token::Minus => Some(Opcode::OpSub),
        Token::Star => Some(Opcode::OpMul),
        Token::Slash => Some(Opcode::OpDiv),
        Token::Modulo => Some(Opcode::OpModulo),
        Token::Equal => Some(Opcode::OpEqual),
        Token::NotEqual => Some(Opcode::OpNotEqual),
        Token::GT => Some(Opcode::OpGT),
        Token::LT => Some(Opcode::OpLT),
        Token::GTE => Some(Opcode::OpGTE),
        Token::LTE => Some(Opcode::OpLTE),
        _ => None,
    }
}

pub open spec fn emit_opt(st: CState, op: Option<Opcode>) -> CState {
    match op {
        Some(o) => emit(st, o),
        None => st,
    }
}

/// Compiles statements in order; `Err(name)` when one reassigns the constant `name`.
pub open spec fn compile_block_spec(st: CState, stmts: Seq<Statement>) -> Result<CState, Seq<char>>
    decreases stmts,
{
    if stmts.len() == 0 {
        Ok(st)
    } else {
        match compile_block_spec(st, stmts.subrange(0, stmts.len() - 1)) {
            Ok(st2) => compile_stmt_spec(st2, stmts[stmts.len() - 1]),
            Err(e) => Err(e),
        }
    }
}

/// Compiles expressions in order, each leaving its value on the stack.
pub open spec fn compile_exprs_spec(st: CState, es: Seq<Expression>) -> Result<CState, Seq<char>>
    decreases es,
{
    if es.len() == 0 {
        Ok(st)
    } else {
        match compile_exprs_spec(st, es.subrange(0, es.len() - 1)) {
            Ok(st2) => compile_expr_spec(st2, es[es.len() - 1]),
            Err(e) => Err(e),
        }
    }
}

/// Compiles string pieces, adding each piece after the first to the ones before.
pub open spec fn compile_interp_spec(st: CState, es: Seq<Expression>) -> Result<CState, Seq<char>>
    decreases es,
{
    if es.len() == 0 {
        Ok(st)
    } else {
        match compile_interp_spec(st, es.subrange(0, es.len() - 1)) {
            Ok(st2) => match compile_expr_spec(st2, es[es.len() - 1]) {
                Ok(st3) => Ok(if es.len() > 1 { emit(st3, Opcode::OpAdd) } else { st3 }),
                Err(e) => Err(e),
            },
            Err(e) => Err(e),
        }
    }
}

/// Compiles object entries: each key as a string constant, then its value.
pub open spec fn compile_pairs_spec(st: CState, ps: Seq<(String, Expression)>) -> Result<CState, Seq<char>>
    decreases ps,
{
    if ps.len() == 0 {
        Ok(st)
    } else {
        match compile_pairs_spec(st, ps.subrange(0, ps.len() - 1)) {
            Ok(st2) => compile_expr_spec(emit_constant(st2, SpecConstant::Str(ps[ps.len() - 1].0@)), ps[ps.len() - 1].1),
            Err(e) => Err(e),
        }
    }
}

/// What compiling one statement does to the state; `Err(name)` when it (or a
/// statement inside it) assigns to the declared constant `name`.
pub open spec fn compile_stmt_spec(st: CState, s: Statement) -> Result<CState, Seq<char>>
    decreases s,
{
    match s {
        Statement::Import { path, item } => {
            let st1 = emit(emit_constant(st, SpecConstant::Str(path@)), Opcode::OpImport);
            Ok(define(st1, path@))
        },
        Statement::Let { name, value } => match compile_expr_spec(st, value) {
            Ok(st1) => Ok(define(st1, name@)),
            Err(e) => Err(e),
        },
        Statement::Const { name, value } => match compile_expr_spec(st, value) {
            Ok(st1) => {
                let consts = if st1.cur.const_symbols.contains(name@) {
                    st1.cur.const_symbols
                } else {
                    st1.cur.const_symbols.push(name@)
                };
                Ok(define(CState { cur: CView { const_symbols: consts, ..st1.cur }, ..st1 }, name@))
            },
            Err(e) => Err(e),
        },
        Statement::Assign { name, value } => {
            if st.cur.const_symbols.contains(name@) {
                Err(name@)
            } else {
                match compile_expr_spec(st, value) {
                    Ok(st1) => {
                        let (st2, scope) = resolve_in(st1, name@);
                        Ok(emit(emit(st2, set_op(scope)), Opcode::OpPop))
                    },
                    Err(e) => Err(e),
                }
            }
        },
        Statement::Return(e) => match compile_expr_spec(st, e) {
            Ok(st1) => Ok(emit(st1, Opcode::OpReturnValue)),
            Err(e) => Err(e),
        },
        Statement::Block(stmts) => compile_block_spec(st, stmts@),
        Statement::If { condition, consequence, alternative } => match compile_expr_spec(st, condition) {
            Ok(st1) => {
                let jif = here(st1);
                match compile_block_spec(emit(st1, Opcode::OpJumpIfFalse(0)), consequence@) {
                    Ok(st2) => match alternative {
                        Some(alt) => {
                            let jmp = here(st2);
                            let st3 = emit(st2, Opcode::OpJump(0));
                            let st4 = patch(st3, jif as int, Opcode::OpJumpIfFalse(here(st3)));
                            match compile_block_spec(st4, alt@) {
                                Ok(st5) => Ok(patch(st5, jmp as int, Opcode::OpJump(here(st5)))),
                                Err(e) => Err(e),
                            }
                        },
                        None => Ok(patch(st2, jif as int, Opcode::OpJumpIfFalse(here(st2)))),
                    },
                    Err(e) => Err(e),
                }
            },
            Err(e) => Err(e),
        },
        Statement::While { condition, body } => {
            let start = here(st);
            match compile_expr_spec(st, condition) {
                Ok(st1) => {
                    let jif = here(st1);
                    match compile_block_spec(emit(st1, Opcode::OpJumpIfFalse(0)), body@) {
                        Ok(st2) => {
                            let st3 = emit(st2, Opcode::OpJump(start));
                            Ok(patch(st3, jif as int, Opcode::OpJumpIfFalse(here(st3))))
                        },
                        Err(e) => Err(e),
                    }
                },
                Err(e) => Err(e),
            }
        },
        Statement::For { init, condition, update, body } => match compile_stmt_spec(st, *init) {
            Ok(st0) => {
                let start = here(st0);
                match compile_expr_spec(st0, condition) {
                    Ok(st1) => {
                        let jif = here(st1);
                        match compile_block_spec(emit(st1, Opcode::OpJumpIfFalse(0)), body@) {
                            Ok(st2) => match compile_stmt_spec(st2, *update) {
                                Ok(st3) => {
                                    let st4 = emit(st3, Opcode::OpJump(start));
                                    Ok(patch(st4, jif as int, Opcode::OpJumpIfFalse(here(st4))))
                                },
                                Err(e) => Err(e),
                            },
                            Err(e) => Err(e),
                        }
                    },
                    Err(e) => Err(e),
                }
            },
            Err(e) => Err(e),
        },
        Statement::Function { name, params, body, is_async } => {
            match compile_block_spec(enter_function(st, params@), body@) {
                Ok(inner) => Ok(define(finish_function(inner, name@, is_async, false), name@)),
                Err(e) => Err(e),
            }
        },
        Statement::Expression(e) => match compile_expr_spec(st, e) {
            Ok(st1) => Ok(emit(st1, Opcode::OpPop)),
            Err(e) => Err(e),
        },
        Statement::TryCatch { try_body, catch_param, catch_body } => {
            let ts = here(st);
            match compile_block_spec(emit(st, Opcode::OpTryStart(0)), try_body@) {
                Ok(st1) => {
                    let st2 = emit(st1, Opcode::OpTryEnd);
                    let jmp = here(st2);
                    let st3 = emit(st2, Opcode::OpJump(0));
                    let st4 = patch(st3, ts as int, Opcode::OpTryStart(here(st3)));
                    match compile_block_spec(define(st4, catch_param@), catch_body@) {
                        Ok(st5) => Ok(patch(st5, jmp as int, Opcode::OpJump(here(st5)))),
                        Err(e) => Err(e),
                    }
                },
                Err(e) => Err(e),
            }
        },
    }
}

/// What compiling one expression does to the state: code that leaves the
/// expression's value on the stack.
pub open spec fn compile_expr_spec(st: CState, e: Expression) -> Result<CState, Seq<char>>
    decreases e,
{
    match e {
        Expression::Null => Ok(emit(st, Opcode::OpNull)),
        Expression::String(s) => Ok(emit_constant(st, SpecConstant::Str(s@))),
        Expression::Number(n) => Ok(emit_constant(st, SpecConstant::Number(n@))),
        Expression::InterpolatedString(parts) => compile_interp_spec(st, parts@),
        Expression::Binary { left, operator, right } => match compile_expr_spec(st, *left) {
            Ok(st1) => match compile_expr_spec(st1, *right) {
                Ok(st2) => Ok(emit_opt(st2, binary_op(operator))),
                Err(e) => Err(e),
            },
            Err(e) => Err(e),
        },
        Expression::Identifier(name) => {
            let (st1, scope) = resolve_in(st, name@);
            Ok(emit(st1, get_op(scope)))
        },
        Expression::Call { function, arguments } => match compile_expr_spec(st, *function) {
            Ok(st1) => match compile_exprs_spec(st1, arguments@) {
                Ok(st2) => Ok(emit(st2, Opcode::OpCall(arguments@.len() as usize))),
                Err(e) => Err(e),
            },
            Err(e) => Err(e),
        },
        Expression::FunctionLiteral { params, body } => {
            match compile_block_spec(enter_function(st, params@), body@) {
                Ok(inner) => Ok(finish_function(inner, "anonymous"@, false, true)),
                Err(e) => Err(e),
            }
        },
        Expression::Prefix { operator, right } => match compile_expr_spec(st, *right) {
            Ok(st1) => match operator {
                Token::Bang => Ok(emit(st1, Opcode::OpNot)),
                Token::Minus => Ok(emit(emit_constant(st1, SpecConstant::Number("0"@)), Opcode::OpSub)),
                _ => Ok(st1),
            },
            Err(e) => Err(e),
        },
        Expression::Postfix { operator, operand } => {
            let (st1, scope) = resolve_in(st, operand@);
            let st2 = emit_constant(emit(st1, get_op(scope)), SpecConstant::Number("1"@));
            let st3 = match operator {
                Token::PlusPlus => emit(st2, Opcode::OpAdd),
                Token::MinusMinus => emit(st2, Opcode::OpSub),
                _ => st2,
            };
            Ok(emit(st3, set_op(scope)))
        },
        Expression::Shell(inner) => match compile_expr_spec(st, *inner) {
            Ok(st1) => Ok(emit(st1, Opcode::OpShellExecute)),
            Err(e) => Err(e),
        },
        Expression::Boolean(b) => Ok(emit(st, if b { Opcode::OpTrue } else { Opcode::OpFalse })),
        Expression::Array(elements) => match compile_exprs_spec(st, elements@) {
            Ok(st1) => Ok(emit(st1, Opcode::OpArray(elements@.len() as usize))),
            Err(e) => Err(e),
        },
        Expression::Object(pairs) => match compile_pairs_spec(st, pairs@) {
            Ok(st1) => Ok(emit(st1, Opcode::OpObject(pairs@.len() as usize))),
            Err(e) => Err(e),
        },
        Expression::Index { object, index } => match compile_expr_spec(st, *object) {
            Ok(st1) => match compile_expr_spec(st1, *index) {
                Ok(st2) => Ok(emit(st2, Opcode::OpIndex)),
                Err(e) => Err(e),
            },
            Err(e) => Err(e),
        },
        Expression::Member { object, field } => match compile_expr_spec(st, *object) {
            Ok(st1) => Ok(emit(emit_constant(st1, SpecConstant::Str(field@)), Opcode::OpIndex)),
            Err(e) => Err(e),
        },
        Expression::MethodCall { object, method, arguments } => match compile_expr_spec(st, *object) {
            Ok(st1) => match compile_exprs_spec(emit_constant(st1, SpecConstant::Str(method@)), arguments@) {
                Ok(st2) => Ok(emit(st2, Opcode::OpMethodCall(arguments@.len() as usize))),
                Err(e) => Err(e),
            },
            Err(e) => Err(e),
        },
        Expression::Await(inner) => match compile_expr_spec(st, *inner) {
            Ok(st1) => Ok(emit(st1, Opcode::OpAwait)),
            Err(e) => Err(e),
        },
    }
}

/// Compiling a whole program with a compiler: the constant pool starts as the
/// compiler's constants and ends up in them.
pub open spec fn compile_program_spec(c: CView, stmts: Seq<Statement>) -> Result<CView, Seq<char>> {
    match compile_block_spec(CState { cur: CView { constants: seq![], ..c }, chain: seq![], pool: c.constants }, stmts) {
        Ok(st) => Ok(CView { constants: st.pool, ..st.cur }),
        Err(e) => Err(e),
    }
}

pub proof fn lemma_map_push<A, B>(s: Seq<A>, x: A, f: spec_fn(A) -> B)
    ensures
        s.push(x).map_values(f) == s.map_values(f).push(f(x)),
{
    assert(s.push(x).map_values(f) =~= s.map_values(f).push(f(x)));
}

pub proof fn lemma_map_drop_last<A, B>(s: Seq<A>, f: spec_fn(A) -> B)
    requires
        s.len() > 0,
    ensures
        s.drop_last().map_values(f) == s.map_values(f).drop_last(),
        s.map_values(f).last() == f(s.last()),
{
    assert(s.drop_last().map_values(f) =~= s.map_values(f).drop_last());
}

proof fn lemma_index_of_extend<A>(s: Seq<A>, x: A, k: int, n: int)
    requires
        0 <= k <= n <= s.len(),
        index_of(s.subrange(0, k), x) is Some,
    ensures
        index_of(s.subrange(0, n), x) == index_of(s.subrange(0, k), x),
    decreases n - k,
{
    if n > k {
        lemma_index_of_extend(s, x, k, n - 1);
        assert(s.subrange(0, n).drop_last() =~= s.subrange(0, n - 1));
    }
}

proof fn lemma_index_of_step<A>(s: Seq<A>, x: A, i: int)
    requires
        0 <= i < s.len(),
        index_of(s.subrange(0, i), x) is None,
    ensures
        s[i] == x ==> index_of(s, x) == Some(i),
        s[i] != x ==> index_of(s.subrange(0, i + 1), x) is None,
{
    assert(s.subrange(0, i + 1).drop_last() =~= s.subrange(0, i));
    if s[i] == x {
        lemma_index_of_extend(s, x, i + 1, s.len() as int);
        assert(s.subrange(0, s.len() as int) =~= s);
    }
}

proof fn lemma_index_of_bound<A>(s: Seq<A>, x: A)
    ensures
        index_of(s, x) matches Some(i) ==> 0 <= i < s.len() && s[i] == x,
    decreases s.len(),
{
    if s.len() > 0 {
        lemma_index_of_bound(s.drop_last(), x);
    }
}

/// The first index of `x` in `v`.
fn index_of_string(v: &Vec<String>, x: &str) -> (r: Option<usize>)
    ensures
        r matches Some(i) ==> index_of(strings_view(v@), x@) == Some(i as int),
        r is None ==> index_of(strings_view(v@), x@) is None,
{
    let ghost sv = strings_view(v@);
    let mut i: usize = 0;
    assert(sv.subrange(0, 0) =~= Seq::<Seq<char>>::empty());
    while i < v.len()
        invariant
            i <= v@.len(),
            sv == strings_view(v@),
            index_of(sv.subrange(0, i as int), x@) is None,
        decreases v@.len() - i,
    {
        let eq = str_eq(v[i].as_str(), x);
        proof {
            lemma_index_of_step(sv, x@, i as int);
        }
        if eq {
            return Some(i);
        }
        i = i + 1;
    }
    assert(sv.subrange(0, v@.len() as int) =~= sv);
    None
}

fn clone_strings(v: &Vec<String>) -> (r: Vec<String>)
    ensures
        strings_view(r@) == strings_view(v@),
{
    let mut r: Vec<String> = Vec::new();
    let mut i: usize = 0;
    while i < v.len()
        invariant
            i <= v@.len(),
            r@.len() == i,
            forall|j: int| 0 <= j < i ==> r@[j]@ == v@[j]@,
        decreases v@.len() - i,
    {
        r.push(v[i].clone());
        i = i + 1;
    }
    assert(strings_view(r@) =~= strings_view(v@));
    r
}

fn clone_globals(v: &Vec<(String, usize)>) -> (r: Vec<(String, usize)>)
    ensures
        globals_view(r@) == globals_view(v@),
{
    let mut r: Vec<(String, usize)> = Vec::new();
    let mut i: usize = 0;
    while i < v.len()
        invariant
            i <= v@.len(),
            r@.len() == i,
            forall|j: int| 0 <= j < i ==> r@[j].0@ == v@[j].0@ && r@[j].1 == v@[j].1,
        decreases v@.len() - i,
    {
        let name = v[i].0.clone();
        r.push((name, v[i].1));
        i = i + 1;
    }
    assert(globals_view(r@) =~= globals_view(v@));
    r
}

/// Adds a constant to the pool and returns its index.
fn push_constant(pool: &mut Vec<Constant>, k: Constant) -> (idx: usize)
    ensures
        constants_view(final(pool)@) == constants_view(old(pool)@).push(k@),
        idx == old(pool)@.len(),
{
    pool.push(k);
    proof {
        lemma_map_push(old(pool)@, k, |c: Constant| c@);
    }
    pool.len() - 1
}

impl Compiler {
    /// The global counter is the number of globals, names are kept (see
    /// `view_wf`), and the compiled code is in bounds: every jump lands in
    /// its code or at its end and every loaded constant is in the pool, in
    /// the code and in every function body in the pool.
    pub open spec fn wf(&self) -> bool {
        &&& view_wf(self@)
        &&& jumps_in_bounds(self@.instructions)
        &&& constants_below(self@.instructions, self@.constants.len() as int)
        &&& bodies_in_bounds(self@.constants)
    }

    /// A compiler for top-level code, with nothing declared.
    pub fn new() -> (c: Self)
        ensures
            c.wf(),
            c@ == fresh_view(),
    {
        let c = Compiler {
            instructions: Vec::new(),
            constants: Vec::new(),
            symbols: Vec::new(),
            global_symbols: Vec::new(),
            global_counter: 0,
            is_function: false,
            upvalues: Vec::new(),
            is_top_level: true,
            const_symbols: Vec::new(),
        };
        assert(constants_view(c.constants@) =~= seq![]);
        assert(strings_view(c.symbols@) =~= seq![]);
        assert(globals_view(c.global_symbols@) =~= seq![]);
        assert(strings_view(c.const_symbols@) =~= seq![]);
        proof {
            lemma_names_kept_empty();
        }
        c
    }

    fn find_global(&self, name: &str) -> (r: Option<usize>)
        ensures
            r == lookup_global(self@.globals, name@),
    {
        let ghost names = global_names(self@.globals);
        let mut i: usize = 0;
        assert(names.subrange(0, 0) =~= Seq::<Seq<char>>::empty());
        while i < self.global_symbols.len()
            invariant
                i <= self.global_symbols@.len(),
                names == global_names(self@.globals),
                names.len() == self.global_symbols@.len(),
                index_of(names.subrange(0, i as int), name@) is None,
            decreases self.global_symbols@.len() - i,
        {
            let eq = str_eq(self.global_symbols[i].0.as_str(), name);
            proof {
                assert(names[i as int] == self.global_symbols@[i as int].0@);
                lemma_index_of_step(names, name@, i as int);
            }
            if eq {
                return Some(self.global_symbols[i].1);
            }
            i = i + 1;
        }
        assert(names.subrange(0, names.len() as int) =~= names);
        None
    }

    /// Declares `name` (see `add_symbol`) and returns its index.
    pub fn add_symbol(&mut self, name: String) -> (idx: usize)
        requires
            old(self).wf(),
        ensures
            final(self).wf(),
            (final(self)@, idx) == add_symbol(old(self)@, name@),
    {
        self.declare(name)
    }

    fn declare(&mut self, name: String) -> (idx: usize)
        requires
            view_wf(old(self)@),
        ensures
            view_wf(final(self)@),
            (final(self)@, idx) == add_symbol(old(self)@, name@),
    {
        if self.is_top_level {
            match self.find_global(name.as_str()) {
                Some(i) => {
                    return i;
                },
                None => {},
            }
            let idx = self.global_counter;
            let ghost n = name@;
            self.global_symbols.push((name, idx));
            let _ = self.global_symbols.len();
            self.global_counter = self.global_counter + 1;
            proof {
                lemma_map_push(old(self).global_symbols@, (name, idx), |p: (String, usize)| (p.0@, p.1));
                lemma_names_kept_add(old(self)@, n);
            }
            idx
        } else {
            match index_of_string(&self.symbols, name.as_str()) {
                Some(p) => {
                    return p;
                },
                None => {},
            }
            proof {
                lemma_names_kept_add(self@, name@);
            }
            self.symbols.push(name);
            proof {
                lemma_map_push(old(self).symbols@, name, |s: String| s@);
            }
            self.symbols.len() - 1
        }
    }

    fn add_upvalue(&mut self, index: usize, is_local: bool) -> (pos: usize)
        ensures
            (final(self)@, pos) == add_upvalue(old(self)@, index, is_local),
            final(self)@.instructions == old(self)@.instructions,
    {
        let ghost u = UpvalueInfo { index, is_local };
        let mut i: usize = 0;
        assert(self.upvalues@.subrange(0, 0) =~= Seq::<UpvalueInfo>::empty());
        while i < self.upvalues.len()
            invariant
                i <= self.upvalues@.len(),
                self@ == old(self)@,
                u == (UpvalueInfo { index, is_local }),
                index_of(self.upvalues@.subrange(0, i as int), u) is None,
            decreases self.upvalues@.len() - i,
        {
            let uv = self.upvalues[i];
            proof {
                lemma_index_of_step(self.upvalues@, u, i as int);
            }
            if uv.index == index && uv.is_local == is_local {
                assert(self.upvalues@[i as int] == u);
                return i;
            }
            assert(self.upvalues@[i as int] != u);
            i = i + 1;
        }
        assert(self.upvalues@.subrange(0, self.upvalues@.len() as int) =~= self.upvalues@);
        self.upvalues.push(UpvalueInfo { index, is_local });
        self.upvalues.len() - 1
    }

    fn resolve_symbol(&mut self, name: &str, chain: &mut Vec<Compiler>) -> (scope: SymbolScope)
        requires
            view_wf(old(self)@),
            chain_wf(chain_view(old(chain)@)),
        ensures
            view_wf(final(self)@),
            chain_wf(chain_view(final(chain)@)),
            (final(self)@, chain_view(final(chain)@), scope) == resolve(old(self)@, chain_view(old(chain)@), name@),
            final(self)@.instructions == old(self)@.instructions,
            chain_frozen(chain_view(old(chain)@), chain_view(final(chain)@)),
        decreases old(chain)@.len(),
    {
        if !self.is_top_level {
            match index_of_string(&self.symbols, name) {
                Some(pos) => {
                    return SymbolScope::Local(pos);
                },
                None => {},
            }
        }
        match self.find_global(name) {
            Some(idx) => {
                return SymbolScope::Global(idx);
            },
            None => {},
        }
        if chain.len() > 0 {
            let ghost ch0 = chain@;
            let mut parent = chain.pop().unwrap();
            proof {
                lemma_map_drop_last(ch0, |c: Compiler| c@);
                assert(chain_wf(chain_view(chain@)));
            }
            let scope = parent.resolve_symbol(name, chain);
            let ghost ch1 = chain@;
            chain.push(parent);
            proof {
                lemma_map_push(ch1, parent, |c: Compiler| c@);
                assert(chain_wf(chain_view(chain@)));
            }
            match scope {
                SymbolScope::Local(idx) => SymbolScope::Upvalue(self.add_upvalue(idx, true)),
                SymbolScope::Upvalue(idx) => SymbolScope::Upvalue(self.add_upvalue(idx, false)),
                SymbolScope::Global(idx) => SymbolScope::Global(idx),
            }
        } else {
            let idx = self.declare(String::from_str(name));
            SymbolScope::Global(idx)
        }
    }

    fn emit(&mut self, op: Opcode)
        ensures
            final(self)@ == emit_view(old(self)@, op),
    {
        self.instructions.push(op);
    }

    fn patch(&mut self, idx: usize, op: Opcode)
        requires
            idx < old(self)@.instructions.len(),
        ensures
            final(self)@ == (CView { instructions: old(self)@.instructions.update(idx as int, op), ..old(self)@ }),
    {
        self.instructions.set(idx, op);
    }

    fn store(&mut self, idx: usize)
        ensures
            final(self)@ == emit_view(old(self)@, store_op(old(self)@, idx)),
    {
        if self.is_top_level {
            self.emit(Opcode::OpSetGlobal(idx));
        } else {
            self.emit(Opcode::OpSetLocal(idx));
        }
    }

    fn define(&mut self, name: String)
        requires
            view_wf(old(self)@),
        ensures
            view_wf(final(self)@),
            final(self)@ == define_view(old(self)@, name@),
    {
        let idx = self.declare(name);
        self.store(idx);
        self.emit(Opcode::OpPop);
    }

    fn emit_descriptors(&mut self, uvs: &Vec<UpvalueInfo>)
        ensures
            final(self)@ == emit_descriptors_view(old(self)@, uvs@),
    {
        let mut i: usize = 0;
        while i < uvs.len()
            invariant
                i <= uvs@.len(),
                self@ == emit_descriptors_view(old(self)@, uvs@.subrange(0, i as int)),
            decreases uvs@.len() - i,
        {
            let u = uvs[i];
            if u.is_local {
                self.emit(Opcode::OpGetLocal(u.index));
            } else {
                self.emit(Opcode::OpGetUpvalue(u.index));
            }
            proof {
                let f = |x: UpvalueInfo| descriptor(x);
                assert(uvs@.subrange(0, i + 1) =~= uvs@.subrange(0, i as int).push(u));
                lemma_map_push(uvs@.subrange(0, i as int), u, f);
            }
            i = i + 1;
        }
        assert(uvs@.subrange(0, uvs@.len() as int) =~= uvs@);
    }
}

proof fn lemma_block_err(st: CState, s: Seq<Statement>, k: int, n: int)
    requires
        0 <= k <= n <= s.len(),
        compile_block_spec(st, s.subrange(0, k)) is Err,
    ensures
        compile_block_spec(st, s.subrange(0, n)) == compile_block_spec(st, s.subrange(0, k)),
    decreases n - k,
{
    if n > k {
        lemma_block_err(st, s, k, n - 1);
        assert(s.subrange(0, n).subrange(0, n - 1) =~= s.subrange(0, n - 1));
    }
}

proof fn lemma_exprs_err(st: CState, s: Seq<Expression>, k: int, n: int)
    requires
        0 <= k <= n <= s.len(),
        compile_exprs_spec(st, s.subrange(0, k)) is Err,
    ensures
        compile_exprs_spec(st, s.subrange(0, n)) == compile_exprs_spec(st, s.subrange(0, k)),
    decreases n - k,
{
    if n > k {
        lemma_exprs_err(st, s, k, n - 1);
        assert(s.subrange(0, n).subrange(0, n - 1) =~= s.subrange(0, n - 1));
    }
}

proof fn lemma_interp_err(st: CState, s: Seq<Expression>, k: int, n: int)
    requires
        0 <= k <= n <= s.len(),
        compile_interp_spec(st, s.subrange(0, k)) is Err,
    ensures
        compile_interp_spec(st, s.subrange(0, n)) == compile_interp_spec(st, s.subrange(0, k)),
    decreases n - k,
{
    if n > k {
        lemma_interp_err(st, s, k, n - 1);
        assert(s.subrange(0, n).subrange(0, n - 1) =~= s.subrange(0, n - 1));
    }
}

proof fn lemma_pairs_err(st: CState, s: Seq<(String, Expression)>, k: int, n: int)
    requires
        0 <= k <= n <= s.len(),
        compile_pairs_spec(st, s.subrange(0, k)) is Err,
    ensures
        compile_pairs_spec(st, s.subrange(0, n)) == compile_pairs_spec(st, s.subrange(0, k)),
    decreases n - k,
{
    if n > k {
        lemma_pairs_err(st, s, k, n - 1);
        assert(s.subrange(0, n).subrange(0, n - 1) =~= s.subrange(0, n - 1));
    }
}

impl Compiler {
    fn emit_constant(&mut self, k: Constant, pool: &mut Vec<Constant>)
        ensures
            constants_view(final(pool)@) == constants_view(old(pool)@).push(k@),
            final(self)@ == emit_view(old(self)@, Opcode::OpConstant(old(pool)@.len() as usize)),
    {
        let idx = push_constant(pool, k);
        self.emit(Opcode::OpConstant(idx));
    }

    fn register_function(
        &mut self,
        child: Compiler,
        name: String,
        is_async: bool,
        always_closure: bool,
        pool: &mut Vec<Constant>,
    )
        ensures
            forall|ch: Seq<CView>|
                #![trigger register_function(CState { cur: old(self)@, chain: ch, pool: constants_view(old(pool)@) }, child@, name@, is_async, always_closure)]
                register_function(
                    CState { cur: old(self)@, chain: ch, pool: constants_view(old(pool)@) },
                    child@,
                    name@,
                    is_async,
                    always_closure,
                ) == (CState { cur: final(self)@, chain: ch, pool: constants_view(final(pool)@) }),
    {
        let num_upvalues = child.upvalues.len();
        let ghost cv = child@;
        let Compiler { instructions, symbols, upvalues, .. } = child;
        let f = CompiledFunction { name, instructions, num_locals: symbols.len(), num_upvalues, is_async };
        let k = push_constant(pool, Constant::Function(f));
        if always_closure || num_upvalues > 0 {
            self.emit(Opcode::OpClosure(k, num_upvalues));
            self.emit_descriptors(&upvalues);
        } else {
            self.emit(Opcode::OpConstant(k));
        }
    }

    fn compile_function(
        &mut self,
        params: &Vec<String>,
        body: &Vec<Statement>,
        chain: &mut Vec<Compiler>,
        pool: &mut Vec<Constant>,
    ) -> (r: Result<Compiler, String>)
        requires
            state_wf(cstate(*old(self), old(chain)@, old(pool)@)),
        ensures
            chain_frozen(chain_view(old(chain)@), chain_view(final(chain)@)),
            r is Ok ==> final(self)@.instructions == old(self)@.instructions,
            match r {
                Ok(child) => compile_block_spec(enter_function(cstate(*old(self), old(chain)@, old(pool)@), params@), body@)
                    matches Ok(inner) && inner.cur == child@
                    && leave_function(inner) == cstate(*final(self), final(chain)@, final(pool)@)
                    && state_wf(cstate(*final(self), final(chain)@, final(pool)@)),
                Err(e) => compile_block_spec(enter_function(cstate(*old(self), old(chain)@, old(pool)@), params@), body@)
                    == Err::<CState, Seq<char>>(e@),
            },
        decreases body@, 1int,
    {
        let ghost st0 = cstate(*self, chain@, pool@);
        let mut child = Compiler::new();
        child.is_function = true;
        child.is_top_level = false;
        child.global_symbols = clone_globals(&self.global_symbols);
        child.global_counter = self.global_counter;
        child.const_symbols = clone_strings(&self.const_symbols);
        assert(child@ == add_params(child_view(self@), params@.subrange(0, 0)));
        proof {
            lemma_names_kept_mix(self@.globals, self@.symbols, self@.const_symbols,
                self@.globals, self@.symbols, self@.const_symbols);
            assert(child@.symbols =~= Seq::<Seq<char>>::empty());
        }
        let mut i: usize = 0;
        while i < params.len()
            invariant
                i <= params@.len(),
                child@ == add_params(child_view(self@), params@.subrange(0, i as int)),
                view_wf(child@),
            decreases params@.len() - i,
        {
            child.declare(params[i].clone());
            assert(params@.subrange(0, i + 1).subrange(0, i as int) =~= params@.subrange(0, i as int));
            i = i + 1;
        }
        assert(params@.subrange(0, params@.len() as int) =~= params@);
        std::mem::swap(self, &mut child);
        let ghost ch0 = chain@;
        chain.push(child);
        proof {
            lemma_map_push(ch0, child, |c: Compiler| c@);
            assert(cstate(*self, chain@, pool@) == enter_function(st0, params@));
        }
        let body_result = self.compile_block(body, chain, pool);
        let ghost ch1 = chain@;
        let mut done = chain.pop().unwrap();
        proof {
            lemma_map_drop_last(ch1, |c: Compiler| c@);
            let k = ch0.len() as int;
            assert(chain_view(ch1)[k].instructions == chain_view(ch0.push(child))[k].instructions);
            assert(chain_frozen(chain_view(ch0), chain_view(chain@)));
        }
        std::mem::swap(self, &mut done);
        match body_result {
            Err(e) => Err(e),
            Ok(()) => {
                let ghost parent = self@;
                self.global_symbols = clone_globals(&done.global_symbols);
                self.global_counter = done.global_counter;
                proof {
                    lemma_names_kept_mix(parent.globals, parent.symbols, parent.const_symbols,
                        done@.globals, done@.symbols, done@.const_symbols);
                }
                Ok(done)
            },
        }
    }

    fn compile_block(&mut self, stmts: &Vec<Statement>, chain: &mut Vec<Compiler>, pool: &mut Vec<Constant>) -> (r: Result<(), String>)
        requires
            state_wf(cstate(*old(self), old(chain)@, old(pool)@)),
        ensures
            chain_frozen(chain_view(old(chain)@), chain_view(final(chain)@)),
            r is Ok ==> final(self)@.instructions.len() >= old(self)@.instructions.len(),
            agrees(r, compile_block_spec(cstate(*old(self), old(chain)@, old(pool)@), stmts@), cstate(*final(self), final(chain)@, final(pool)@)),
        decreases stmts@, 0int,
    {
        let ghost st0 = cstate(*self, chain@, pool@);
        let ghost len0 = chain@.len();
        let mut i: usize = 0;
        assert(stmts@.subrange(0, 0) =~= Seq::<Statement>::empty());
        while i < stmts.len()
            invariant
                i <= stmts@.len(),
                len0 == old(chain)@.len(),
                st0 == cstate(*old(self), old(chain)@, old(pool)@),
                chain_frozen(chain_view(old(chain)@), chain_view(chain@)),
                self@.instructions.len() >= old(self)@.instructions.len(),
                compile_block_spec(st0, stmts@.subrange(0, i as int)) == Ok::<CState, Seq<char>>(cstate(*self, chain@, pool@)),
                state_wf(cstate(*self, chain@, pool@)),
            decreases stmts@.len() - i,
        {
            let r = self.compile_statement(&stmts[i], chain, pool);
            assert(stmts@.subrange(0, i + 1).subrange(0, i as int) =~= stmts@.subrange(0, i as int));
            match r {
                Err(e) => {
                    proof {
                        lemma_block_err(st0, stmts@, i + 1, stmts@.len() as int);
                        assert(stmts@.subrange(0, stmts@.len() as int) =~= stmts@);
                    }
                    return Err(e);
                },
                Ok(()) => {},
            }
            i = i + 1;
        }
        assert(stmts@.subrange(0, stmts@.len() as int) =~= stmts@);
        Ok(())
    }

    fn compile_expressions(&mut self, es: &Vec<Expression>, chain: &mut Vec<Compiler>, pool: &mut Vec<Constant>) -> (r: Result<(), String>)
        requires
            state_wf(cstate(*old(self), old(chain)@, old(pool)@)),
        ensures
            chain_frozen(chain_view(old(chain)@), chain_view(final(chain)@)),
            r is Ok ==> final(self)@.instructions.len() >= old(self)@.instructions.len(),
            agrees(r, compile_exprs_spec(cstate(*old(self), old(chain)@, old(pool)@), es@), cstate(*final(self), final(chain)@, final(pool)@)),
        decreases es@, 0int,
    {
        let ghost st0 = cstate(*self, chain@, pool@);
        let ghost len0 = chain@.len();
        let mut i: usize = 0;
        assert(es@.subrange(0, 0) =~= Seq::<Expression>::empty());
        while i < es.len()
            invariant
                i <= es@.len(),
                len0 == old(chain)@.len(),
                st0 == cstate(*old(self), old(chain)@, old(pool)@),
                chain_frozen(chain_view(old(chain)@), chain_view(chain@)),
                self@.instructions.len() >= old(self)@.instructions.len(),
                compile_exprs_spec(st0, es@.subrange(0, i as int)) == Ok::<CState, Seq<char>>(cstate(*self, chain@, pool@)),
                state_wf(cstate(*self, chain@, pool@)),
            decreases es@.len() - i,
        {
            let r = self.compile_expression(&es[i], chain, pool);
            assert(es@.subrange(0, i + 1).subrange(0, i as int) =~= es@.subrange(0, i as int));
            match r {
                Err(e) => {
                    proof {
                        lemma_exprs_err(st0, es@, i + 1, es@.len() as int);
                        assert(es@.subrange(0, es@.len() as int) =~= es@);
                    }
                    return Err(e);
                },
                Ok(()) => {},
            }
            i = i + 1;
        }
        assert(es@.subrange(0, es@.len() as int) =~= es@);
        Ok(())
    }

    fn compile_interpolation(&mut self, es: &Vec<Expression>, chain: &mut Vec<Compiler>, pool: &mut Vec<Constant>) -> (r: Result<(), String>)
        requires
            state_wf(cstate(*old(self), old(chain)@, old(pool)@)),
        ensures
            chain_frozen(chain_view(old(chain)@), chain_view(final(chain)@)),
            r is Ok ==> final(self)@.instructions.len() >= old(self)@.instructions.len(),
            agrees(r, compile_interp_spec(cstate(*old(self), old(chain)@, old(pool)@), es@), cstate(*final(self), final(chain)@, final(pool)@)),
        decreases es@, 0int,
    {
        let ghost st0 = cstate(*self, chain@, pool@);
        let ghost len0 = chain@.len();
        let mut i: usize = 0;
        assert(es@.subrange(0, 0) =~= Seq::<Expression>::empty());
        while i < es.len()
            invariant
                i <= es@.len(),
                len0 == old(chain)@.len(),
                st0 == cstate(*old(self), old(chain)@, old(pool)@),
                chain_frozen(chain_view(old(chain)@), chain_view(chain@)),
                self@.instructions.len() >= old(self)@.instructions.len(),
                compile_interp_spec(st0, es@.subrange(0, i as int)) == Ok::<CState, Seq<char>>(cstate(*self, chain@, pool@)),
                state_wf(cstate(*self, chain@, pool@)),
            decreases es@.len() - i,
        {
            let r = self.compile_expression(&es[i], chain, pool);
            assert(es@.subrange(0, i + 1).subrange(0, i as int) =~= es@.subrange(0, i as int));
            match r {
                Err(e) => {
                    proof {
                        lemma_interp_err(st0, es@, i + 1, es@.len() as int);
                        assert(es@.subrange(0, es@.len() as int) =~= es@);
                    }
                    return Err(e);
                },
                Ok(()) => {},
            }
            if i > 0 {
                self.emit(Opcode::OpAdd);
            }
            i = i + 1;
        }
        assert(es@.subrange(0, es@.len() as int) =~= es@);
        Ok(())
    }

    fn compile_pairs(&mut self, ps: &Vec<(String, Expression)>, chain: &mut Vec<Compiler>, pool: &mut Vec<Constant>) -> (r: Result<(), String>)
        requires
            state_wf(cstate(*old(self), old(chain)@, old(pool)@)),
        ensures
            chain_frozen(chain_view(old(chain)@), chain_view(final(chain)@)),
            r is Ok ==> final(self)@.instructions.len() >= old(self)@.instructions.len(),
            agrees(r, compile_pairs_spec(cstate(*old(self), old(chain)@, old(pool)@), ps@), cstate(*final(self), final(chain)@, final(pool)@)),
        decreases ps@, 0int,
    {
        let ghost st0 = cstate(*self, chain@, pool@);
        let ghost len0 = chain@.len();
        let mut i: usize = 0;
        assert(ps@.subrange(0, 0) =~= Seq::<(String, Expression)>::empty());
        while i < ps.len()
            invariant
                i <= ps@.len(),
                len0 == old(chain)@.len(),
                st0 == cstate(*old(self), old(chain)@, old(pool)@),
                chain_frozen(chain_view(old(chain)@), chain_view(chain@)),
                self@.instructions.len() >= old(self)@.instructions.len(),
                compile_pairs_spec(st0, ps@.subrange(0, i as int)) == Ok::<CState, Seq<char>>(cstate(*self, chain@, pool@)),
                state_wf(cstate(*self, chain@, pool@)),
            decreases ps@.len() - i,
        {
            let key = ps[i].0.clone();
            self.emit_constant(Constant::String(key), pool);
            let r = self.compile_expression(&ps[i].1, chain, pool);
            assert(ps@.subrange(0, i + 1).subrange(0, i as int) =~= ps@.subrange(0, i as int));
            match r {
                Err(e) => {
                    proof {
                        lemma_pairs_err(st0, ps@, i + 1, ps@.len() as int);
                        assert(ps@.subrange(0, ps@.len() as int) =~= ps@);
                    }
                    return Err(e);
                },
                Ok(()) => {},
            }
            i = i + 1;
        }
        assert(ps@.subrange(0, ps@.len() as int) =~= ps@);
        Ok(())
    }

    fn emit_get(&mut self, scope: SymbolScope)
        ensures
            final(self)@ == emit_view(old(self)@, get_op(scope)),
    {
        match scope {
            SymbolScope::Global(idx) => self.emit(Opcode::OpGetGlobal(idx)),
            SymbolScope::Local(idx) => self.emit(Opcode::OpGetLocal(idx)),
            SymbolScope::Upvalue(idx) => self.emit(Opcode::OpGetUpvalue(idx)),
        }
    }

    fn emit_set(&mut self, scope: SymbolScope)
        ensures
            final(self)@ == emit_view(old(self)@, set_op(scope)),
    {
        match scope {
            SymbolScope::Global(idx) => self.emit(Opcode::OpSetGlobal(idx)),
            SymbolScope::Local(idx) => self.emit(Opcode::OpSetLocal(idx)),
            SymbolScope::Upvalue(idx) => self.emit(Opcode::OpSetUpvalue(idx)),
        }
    }

    fn contains_const(&self, name: &str) -> (r: bool)
        ensures
            r == self@.const_symbols.contains(name@),
    {
        let r = index_of_string(&self.const_symbols, name);
        proof {
            lemma_index_of_bound(self@.const_symbols, name@);
            if self@.const_symbols.contains(name@) {
                let j = choose|j: int| 0 <= j < self@.const_symbols.len() && self@.const_symbols[j] == name@;
                lemma_index_of_contains(self@.const_symbols, name@, j);
            }
        }
        r.is_some()
    }
}

impl Compiler {
    #[verifier::rlimit(60)]
    fn compile_statement(&mut self, stmt: &Statement, chain: &mut Vec<Compiler>, pool: &mut Vec<Constant>) -> (r: Result<(), String>)
        requires
            state_wf(cstate(*old(self), old(chain)@, old(pool)@)),
        ensures
            chain_frozen(chain_view(old(chain)@), chain_view(final(chain)@)),
            r is Ok ==> final(self)@.instructions.len() >= old(self)@.instructions.len(),
            agrees(r, compile_stmt_spec(cstate(*old(self), old(chain)@, old(pool)@), *stmt), cstate(*final(self), final(chain)@, final(pool)@)),
        decreases *stmt, 2int,
    {
        match stmt {
            Statement::Import { path, item: _ } => {
                self.emit_constant(Constant::String(path.clone()), pool);
                self.emit(Opcode::OpImport);
                self.define(path.clone());
                Ok(())
            },
            Statement::Let { name, value } => {
                match self.compile_expression(value, chain, pool) {
                    Err(e) => { return Err(e); },
                    Ok(()) => {},
                }
                self.define(name.clone());
                Ok(())
            },
            Statement::Const { name, value } => {
                match self.compile_expression(value, chain, pool) {
                    Err(e) => { return Err(e); },
                    Ok(()) => {},
                }
                if !self.contains_const(name.as_str()) {
                    let ghost old_consts = self.const_symbols@;
                    let n2 = name.clone();
                    self.const_symbols.push(n2);
                    proof {
                        lemma_map_push(old_consts, n2, |s: String| s@);
                        lemma_names_kept_const(self@.globals, self@.symbols, strings_view(old_consts), name@);
                    }
                }
                self.define(name.clone());
                Ok(())
            },
            Statement::Assign { name, value } => {
                if self.contains_const(name.as_str()) {
                    return Err(name.clone());
                }
                match self.compile_expression(value, chain, pool) {
                    Err(e) => { return Err(e); },
                    Ok(()) => {},
                }
                let scope = self.resolve_symbol(name.as_str(), chain);
                self.emit_set(scope);
                self.emit(Opcode::OpPop);
                Ok(())
            },
            Statement::Return(expr) => {
                match self.compile_expression(expr, chain, pool) {
                    Err(e) => { return Err(e); },
                    Ok(()) => {},
                }
                self.emit(Opcode::OpReturnValue);
                Ok(())
            },
            Statement::Block(stmts) => self.compile_block(stmts, chain, pool),
            Statement::If { condition, consequence, alternative } => {
                match self.compile_expression(condition, chain, pool) {
                    Err(e) => { return Err(e); },
                    Ok(()) => {},
                }
                let jump_if_false_idx = self.instructions.len();
                self.emit(Opcode::OpJumpIfFalse(0));
                match self.compile_block(consequence, chain, pool) {
                    Err(e) => { return Err(e); },
                    Ok(()) => {},
                }
                match alternative {
                    Some(alt) => {
                        let jump_idx = self.instructions.len();
                        self.emit(Opcode::OpJump(0));
                        let start_of_else = self.instructions.len();
                        self.patch(jump_if_false_idx, Opcode::OpJumpIfFalse(start_of_else));
                        match self.compile_block(alt, chain, pool) {
                            Err(e) => { return Err(e); },
                            Ok(()) => {},
                        }
                        let after_else = self.instructions.len();
                        self.patch(jump_idx, Opcode::OpJump(after_else));
                    },
                    None => {
                        let after_consequence = self.instructions.len();
                        self.patch(jump_if_false_idx, Opcode::OpJumpIfFalse(after_consequence));
                    },
                }
                Ok(())
            },
            Statement::While { condition, body } => {
                let loop_start = self.instructions.len();
                match self.compile_expression(condition, chain, pool) {
                    Err(e) => { return Err(e); },
                    Ok(()) => {},
                }
                let jump_if_false_idx = self.instructions.len();
                self.emit(Opcode::OpJumpIfFalse(0));
                match self.compile_block(body, chain, pool) {
                    Err(e) => { return Err(e); },
                    Ok(()) => {},
                }
                self.emit(Opcode::OpJump(loop_start));
                let after_loop = self.instructions.len();
                self.patch(jump_if_false_idx, Opcode::OpJumpIfFalse(after_loop));
                Ok(())
            },
            Statement::For { init, condition, update, body } => {
                match self.compile_statement(init, chain, pool) {
                    Err(e) => { return Err(e); },
                    Ok(()) => {},
                }
                let loop_start = self.instructions.len();
                match self.compile_expression(condition, chain, pool) {
                    Err(e) => { return Err(e); },
                    Ok(()) => {},
                }
                let jump_if_false_idx = self.instructions.len();
                self.emit(Opcode::OpJumpIfFalse(0));
                match self.compile_block(body, chain, pool) {
                    Err(e) => { return Err(e); },
                    Ok(()) => {},
                }
                match self.compile_statement(update, chain, pool) {
                    Err(e) => { return Err(e); },
                    Ok(()) => {},
                }
                self.emit(Opcode::OpJump(loop_start));
                let after_loop = self.instructions.len();
                self.patch(jump_if_false_idx, Opcode::OpJumpIfFalse(after_loop));
                Ok(())
            },
            Statement::Function { name, params, body, is_async } => {
                let child = match self.compile_function(params, body, chain, pool) {
                    Ok(c) => c,
                    Err(e) => { return Err(e); },
                };
                self.register_function(child, name.clone(), *is_async, false, pool);
                self.define(name.clone());
                Ok(())
            },
            Statement::Expression(expr) => {
                match self.compile_expression(expr, chain, pool) {
                    Err(e) => { return Err(e); },
                    Ok(()) => {},
                }
                self.emit(Opcode::OpPop);
                Ok(())
            },
            Statement::TryCatch { try_body, catch_param, catch_body } => {
                let try_start_idx = self.instructions.len();
                self.emit(Opcode::OpTryStart(0));
                match self.compile_block(try_body, chain, pool) {
                    Err(e) => { return Err(e); },
                    Ok(()) => {},
                }
                self.emit(Opcode::OpTryEnd);
                let jump_over_catch_idx = self.instructions.len();
                self.emit(Opcode::OpJump(0));
                let catch_start = self.instructions.len();
                self.patch(try_start_idx, Opcode::OpTryStart(catch_start));
                self.define(catch_param.clone());
                match self.compile_block(catch_body, chain, pool) {
                    Err(e) => { return Err(e); },
                    Ok(()) => {},
                }
                let after_catch = self.instructions.len();
                self.patch(jump_over_catch_idx, Opcode::OpJump(after_catch));
                Ok(())
            },
        }
    }

    #[verifier::rlimit(60)]
    fn compile_expression(&mut self, expr: &Expression, chain: &mut Vec<Compiler>, pool: &mut Vec<Constant>) -> (r: Result<(), String>)
        requires
            state_wf(cstate(*old(self), old(chain)@, old(pool)@)),
        ensures
            chain_frozen(chain_view(old(chain)@), chain_view(final(chain)@)),
            r is Ok ==> final(self)@.instructions.len() >= old(self)@.instructions.len(),
            agrees(r, compile_expr_spec(cstate(*old(self), old(chain)@, old(pool)@), *expr), cstate(*final(self), final(chain)@, final(pool)@)),
        decreases *expr, 2int,
    {
        match expr {
            Expression::Null => {
                self.emit(Opcode::OpNull);
                Ok(())
            },
            Expression::String(s) => {
                self.emit_constant(Constant::String(s.clone()), pool);
                Ok(())
            },
            Expression::Number(n) => {
                self.emit_constant(Constant::Number(n.clone()), pool);
                Ok(())
            },
            Expression::InterpolatedString(parts) => self.compile_interpolation(parts, chain, pool),
            Expression::Binary { left, operator, right } => {
                match self.compile_expression(left, chain, pool) {
                    Err(e) => { return Err(e); },
                    Ok(()) => {},
                }
                match self.compile_expression(right, chain, pool) {
                    Err(e) => { return Err(e); },
                    Ok(()) => {},
                }
                match operator {
                    Token::Plus => self.emit(Opcode::OpAdd),
                    Token::Minus => self.emit(Opcode::OpSub),
                    Token::Star => self.emit(Opcode::OpMul),
                    Token::Slash => self.emit(Opcode::OpDiv),
                    Token::Modulo => self.emit(Opcode::OpModulo),
                    Token::Equal => self.emit(Opcode::OpEqual),
                    Token::NotEqual => self.emit(Opcode::OpNotEqual),
                    Token::GT => self.emit(Opcode::OpGT),
                    Token::LT => self.emit(Opcode::OpLT),
                    Token::GTE => self.emit(Opcode::OpGTE),
                    Token::LTE => self.emit(Opcode::OpLTE),
                    _ => {},
                }
                Ok(())
            },
            Expression::Identifier(name) => {
                let scope = self.resolve_symbol(name.as_str(), chain);
                self.emit_get(scope);
                Ok(())
            },
            Expression::Call { function, arguments } => {
                match self.compile_expression(function, chain, pool) {
                    Err(e) => { return Err(e); },
                    Ok(()) => {},
                }
                let arg_count = arguments.len();
                match self.compile_expressions(arguments, chain, pool) {
                    Err(e) => { return Err(e); },
                    Ok(()) => {},
                }
                self.emit(Opcode::OpCall(arg_count));
                Ok(())
            },
            Expression::FunctionLiteral { params, body } => {
                let child = match self.compile_function(params, body, chain, pool) {
                    Ok(c) => c,
                    Err(e) => { return Err(e); },
                };
                self.register_function(child, String::from_str("anonymous"), false, true, pool);
                Ok(())
            },
            Expression::Prefix { operator, right } => {
                match self.compile_expression(right, chain, pool) {
                    Err(e) => { return Err(e); },
                    Ok(()) => {},
                }
                match operator {
                    Token::Bang => self.emit(Opcode::OpNot),
                    Token::Minus => {
                        self.emit_constant(Constant::Number(String::from_str("0")), pool);
                        self.emit(Opcode::OpSub);
                    },
                    _ => {},
                }
                Ok(())
            },
            Expression::Postfix { operator, operand } => {
                let scope = self.resolve_symbol(operand.as_str(), chain);
                self.emit_get(scope);
                self.emit_constant(Constant::Number(String::from_str("1")), pool);
                match operator {
                    Token::PlusPlus => self.emit(Opcode::OpAdd),
                    Token::MinusMinus => self.emit(Opcode::OpSub),
                    _ => {},
                }
                self.emit_set(scope);
                Ok(())
            },
            Expression::Shell(inner) => {
                match self.compile_expression(inner, chain, pool) {
                    Err(e) => { return Err(e); },
                    Ok(()) => {},
                }
                self.emit(Opcode::OpShellExecute);
                Ok(())
            },
            Expression::Boolean(b) => {
                if *b {
                    self.emit(Opcode::OpTrue);
                } else {
                    self.emit(Opcode::OpFalse);
                }
                Ok(())
            },
            Expression::Array(elements) => {
                let count = elements.len();
                match self.compile_expressions(elements, chain, pool) {
                    Err(e) => { return Err(e); },
                    Ok(()) => {},
                }
                self.emit(Opcode::OpArray(count));
                Ok(())
            },
            Expression::Object(pairs) => {
                let count = pairs.len();
                match self.compile_pairs(pairs, chain, pool) {
                    Err(e) => { return Err(e); },
                    Ok(()) => {},
                }
                self.emit(Opcode::OpObject(count));
                Ok(())
            },
            Expression::Index { object, index } => {
                match self.compile_expression(object, chain, pool) {
                    Err(e) => { return Err(e); },
                    Ok(()) => {},
                }
                match self.compile_expression(index, chain, pool) {
                    Err(e) => { return Err(e); },
                    Ok(()) => {},
                }
                self.emit(Opcode::OpIndex);
                Ok(())
            },
            Expression::Member { object, field } => {
                match self.compile_expression(object, chain, pool) {
                    Err(e) => { return Err(e); },
                    Ok(()) => {},
                }
                self.emit_constant(Constant::String(field.clone()), pool);
                self.emit(Opcode::OpIndex);
                Ok(())
            },
            Expression::MethodCall { object, method, arguments } => {
                match self.compile_expression(object, chain, pool) {
                    Err(e) => { return Err(e); },
                    Ok(()) => {},
                }
                self.emit_constant(Constant::String(method.clone()), pool);
                let arg_count = arguments.len();
                match self.compile_expressions(arguments, chain, pool) {
                    Err(e) => { return Err(e); },
                    Ok(()) => {},
                }
                self.emit(Opcode::OpMethodCall(arg_count));
                Ok(())
            },
            Expression::Await(inner) => {
                match self.compile_expression(inner, chain, pool) {
                    Err(e) => { return Err(e); },
                    Ok(()) => {},
                }
                self.emit(Opcode::OpAwait);
                Ok(())
            },
        }
    }

    /// Compiles a program; `Err(name)` (and no promise on the compiler's
    /// state) when a statement reassigns the constant `name`.
    pub fn try_compile(&mut self, statements: &Vec<Statement>) -> (r: Result<(), String>)
        requires
            old(self).wf(),
        ensures
            match r {
                Ok(()) => compile_program_spec(old(self)@, statements@) == Ok::<CView, Seq<char>>(final(self)@) && final(self).wf(),
                Err(e) => compile_program_spec(old(self)@, statements@) == Err::<CView, Seq<char>>(e@),
            },
    {
        let mut pool: Vec<Constant> = Vec::new();
        std::mem::swap(&mut pool, &mut self.constants);
        let mut chain: Vec<Compiler> = Vec::new();
        proof {
            assert(constants_view(self.constants@) =~= seq![]);
            assert(chain_view(chain@) =~= seq![]);
        }
        let r = self.compile_block(statements, &mut chain, &mut pool);
        std::mem::swap(&mut pool, &mut self.constants);
        proof {
            law_jumps_stay_in_code(old(self)@, statements@);
            law_constants_stay_in_pool(old(self)@, statements@);
        }
        r
    }

    /// Compiles a program into this compiler's instructions and constants.
    pub fn compile(&mut self, statements: Vec<Statement>)
        requires
            old(self).wf(),
            compile_program_spec(old(self)@, statements@) is Ok,
        ensures
            compile_program_spec(old(self)@, statements@) == Ok::<CView, Seq<char>>(final(self)@),
            final(self).wf(),
    {
        let _ = self.try_compile(&statements);
    }
}

proof fn lemma_index_of_none<A>(s: Seq<A>, x: A)
    requires
        index_of(s, x) is None,
    ensures
        !s.contains(x),
{
    if s.contains(x) {
        let j = choose|j: int| 0 <= j < s.len() && s[j] == x;
        lemma_index_of_contains(s, x, j);
    }
}

proof fn lemma_push_distinct<A>(s: Seq<A>, x: A)
    requires
        distinct(s),
        !s.contains(x),
    ensures
        distinct(s.push(x)),
{
    let t = s.push(x);
    assert forall|i: int, j: int| 0 <= i < j < t.len() implies t[i] != t[j] by {
        if j == s.len() {
            assert(t[i] == s[i]);
        } else {
            assert(t[i] == s[i] && t[j] == s[j]);
        }
    }
}

/// Names kept after declaring one more, which was not declared.
proof fn lemma_names_kept_add(c: CView, name: Seq<char>)
    requires
        view_wf(c),
        c.is_top_level ==> c.globals.len() < usize::MAX,
    ensures
        view_wf(add_symbol(c, name).0),
{
    reveal(names_kept);
    if c.is_top_level {
        if lookup_global(c.globals, name) is None {
            let gs = c.globals.push((name, c.global_counter));
            lemma_index_of_none(global_names(c.globals), name);
            lemma_map_push(c.globals, (name, c.global_counter), |p: (Seq<char>, usize)| p.0);
            lemma_push_distinct(global_names(c.globals), name);
            assert forall|i: int| 0 <= i < gs.len() implies #[trigger] gs[i].1 == i by {
                if i < c.globals.len() {
                    assert(gs[i] == c.globals[i]);
                }
            }
        }
    } else {
        if index_of(c.symbols, name) is None {
            lemma_index_of_none(c.symbols, name);
            lemma_push_distinct(c.symbols, name);
        }
    }
}

proof fn lemma_names_kept_const(g: Seq<(Seq<char>, usize)>, sy: Seq<Seq<char>>, cs: Seq<Seq<char>>, x: Seq<char>)
    requires
        names_kept(g, sy, cs),
        !cs.contains(x),
    ensures
        names_kept(g, sy, cs.push(x)),
{
    reveal(names_kept);
    lemma_push_distinct(cs, x);
}

/// The globals and constants of one compiler with the locals of another.
proof fn lemma_names_kept_mix(
    g: Seq<(Seq<char>, usize)>,
    sy: Seq<Seq<char>>,
    cs: Seq<Seq<char>>,
    g2: Seq<(Seq<char>, usize)>,
    sy2: Seq<Seq<char>>,
    cs2: Seq<Seq<char>>,
)
    requires
        names_kept(g, sy, cs),
        names_kept(g2, sy2, cs2),
    ensures
        names_kept(g2, sy, cs),
        names_kept(g, seq![], cs),
{
    reveal(names_kept);
}

proof fn lemma_names_kept_empty()
    ensures
        names_kept(seq![], seq![], seq![]),
{
    reveal(names_kept);
}

proof fn lemma_index_of_contains<A>(s: Seq<A>, x: A, j: int)
    requires
        0 <= j < s.len(),
        s[j] == x,
    ensures
        index_of(s, x) is Some,
    decreases s.len(),
{
    if j < s.len() - 1 {
        lemma_index_of_contains(s.drop_last(), x, j);
    }
}


proof fn lemma_index_of_push<A>(s: Seq<A>, x: A, y: A)
    ensures
        index_of(s.push(x), y) == (match index_of(s, y) {
            Some(i) => Some(i),
            None => if x == y { Some(s.len() as int) } else { None },
        }),
{
    assert(s.push(x).drop_last() =~= s);
}

proof fn lemma_index_of_range<A>(s: Seq<A>, y: A)
    ensures
        index_of(s, y) matches Some(i) ==> 0 <= i < s.len() && s[i] == y,
    decreases s.len(),
{
    if s.len() > 0 {
        lemma_index_of_range(s.drop_last(), y);
    }
}

/// Declaring a name that is already declared changes nothing and gives the
/// index it was given the first time.
pub proof fn law_declare_again(c: CView, name: Seq<char>)
    ensures
        add_symbol(add_symbol(c, name).0, name) == (add_symbol(c, name).0, add_symbol(c, name).1),
{
    let (d, i) = add_symbol(c, name);
    if c.is_top_level {
        if lookup_global(c.globals, name) is None {
            lemma_map_push(c.globals, (name, c.global_counter), |p: (Seq<char>, usize)| p.0);
            lemma_index_of_push(global_names(c.globals), name, name);
            assert(global_names(c.globals).len() == c.globals.len());
        }
    } else {
        if index_of(c.symbols, name) is None {
            lemma_index_of_push(c.symbols, name, name);
        }
    }
}

/// Declaring one name leaves the index of every other declared name as it
/// was.
pub proof fn law_declare_keeps_others(c: CView, name: Seq<char>, other: Seq<char>)
    requires
        other != name,
    ensures
        c.is_top_level ==> lookup_global(add_symbol(c, name).0.globals, other) == lookup_global(c.globals, other),
        !c.is_top_level ==> index_of(add_symbol(c, name).0.symbols, other) == index_of(c.symbols, other),
{
    if c.is_top_level {
        if lookup_global(c.globals, name) is None {
            let gs = c.globals.push((name, c.global_counter));
            lemma_map_push(c.globals, (name, c.global_counter), |p: (Seq<char>, usize)| p.0);
            lemma_index_of_push(global_names(c.globals), name, other);
            lemma_index_of_range(global_names(c.globals), other);
            match index_of(global_names(c.globals), other) {
                Some(i) => {
                    assert(gs[i] == c.globals[i]);
                },
                None => {},
            }
        }
    } else {
        if index_of(c.symbols, name) is None {
            lemma_index_of_push(c.symbols, name, other);
        }
    }
}


/// The compiler that name resolution ends at (the outermost one) declares
/// globals.
pub open spec fn outermost_is_top_level(c: CView, chain: Seq<CView>) -> bool {
    if chain.len() == 0 { c.is_top_level } else { chain[0].is_top_level }
}

proof fn lemma_add_upvalue_again(c: CView, index: usize, is_local: bool)
    ensures
        add_upvalue(add_upvalue(c, index, is_local).0, index, is_local) == add_upvalue(c, index, is_local),
{
    let u = UpvalueInfo { index, is_local };
    if index_of(c.upvalues, u) is None {
        lemma_index_of_push(c.upvalues, u, u);
    }
}

/// Resolving a name a second time, in the state the first resolution left,
/// finds the same variable and changes nothing: a captured variable keeps one
/// upvalue slot in each function, however often it is referred to.
pub proof fn law_resolve_again(c: CView, chain: Seq<CView>, name: Seq<char>)
    requires
        outermost_is_top_level(c, chain),
    ensures
        ({
            let (c2, chain2, scope) = resolve(c, chain, name);
            resolve(c2, chain2, name) == (c2, chain2, scope)
        }),
    decreases chain.len(),
{
    if !c.is_top_level && index_of(c.symbols, name) is Some {
    } else if lookup_global(c.globals, name) is Some {
    } else if chain.len() > 0 {
        law_resolve_again(chain.last(), chain.drop_last(), name);
        let (p, rest, scope) = resolve(chain.last(), chain.drop_last(), name);
        let chain2 = rest.push(p);
        assert(chain2.last() == p);
        assert(chain2.drop_last() =~= rest);
        match scope {
            SymbolScope::Local(i) => {
                lemma_add_upvalue_again(c, i, true);
            },
            SymbolScope::Upvalue(i) => {
                lemma_add_upvalue_again(c, i, false);
            },
            SymbolScope::Global(i) => {},
        }
    } else {
        law_declare_again(c, name);
        let c2 = add_symbol(c, name).0;
        lemma_map_push(c.globals, (name, c.global_counter), |p: (Seq<char>, usize)| p.0);
        lemma_index_of_push(global_names(c.globals), name, name);
        assert(global_names(c.globals).len() == c.globals.len());
        assert(lookup_global(c2.globals, name) == Some(add_symbol(c, name).1));
    }
}

} // verus!
