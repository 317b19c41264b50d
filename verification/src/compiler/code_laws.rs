//! Laws of the compiled code as a whole. The VM runs a function's code until
//! its instruction pointer reaches the end, so a jump may target any
//! instruction of the same code or the position just past its end, and
//! constants are loaded from the program's single pool. The compiler emits
//! no other jump and loads no other constant, in the program's code and in
//! every function body it puts into the pool; and compiling a program in
//! parts is compiling it at once.
use vstd::prelude::*;
use crate::compiler::codegen::{
    add_params, child_view, compile_block_spec, compile_expr_spec, compile_exprs_spec,
    compile_interp_spec, compile_pairs_spec, compile_program_spec, fresh_view, index_of, compile_stmt_spec, define, descriptor,
    emit, emit_constant, enter_function, finish_function, here, patch, resolve, resolve_in, CState, CView,
    UpvalueInfo,
};
use crate::compiler::lexer::Token;
use crate::compiler::parser::{Expression, Statement};
use crate::vm::object::SpecConstant;
use crate::vm::opcodes::Opcode;

verus! {

/// The address an instruction may continue at, other than the next one.
pub open spec fn jump_target(op: Opcode) -> Option<usize> {
    match op {
        Opcode::OpJump(t) => Some(t),
        Opcode::OpJumpIfFalse(t) => Some(t),
        Opcode::OpTryStart(t) => Some(t),
        _ => None,
    }
}

/// Every jump in `code` targets an instruction of `code` or its end.
pub open spec fn jumps_in_bounds(code: Seq<Opcode>) -> bool {
    forall|i: int| 0 <= i < code.len() ==> (#[trigger] jump_target(code[i]) matches Some(t) ==> t <= code.len())
}

/// The constant an instruction loads, if any.
pub open spec fn constant_index(op: Opcode) -> Option<usize> {
    match op {
        Opcode::OpConstant(k) => Some(k),
        Opcode::OpClosure(k, _) => Some(k),
        _ => None,
    }
}

/// Every constant that `code` loads is one of the first `n` of the pool.
pub open spec fn constants_below(code: Seq<Opcode>, n: int) -> bool {
    forall|i: int| 0 <= i < code.len() ==> (#[trigger] constant_index(code[i]) matches Some(k) ==> k < n)
}

/// Every function body in the pool keeps its jumps in bounds and loads only
/// constants of the pool.
pub open spec fn bodies_in_bounds(pool: Seq<SpecConstant>) -> bool {
    forall|i: int| 0 <= i < pool.len() ==>
        (#[trigger] pool[i] matches SpecConstant::Function { instructions, .. }
            ==> jumps_in_bounds(instructions) && constants_below(instructions, pool.len() as int))
}

pub open spec fn code_ok(st: CState) -> bool {
    &&& jumps_in_bounds(st.cur.instructions)
    &&& constants_below(st.cur.instructions, st.pool.len() as int)
    &&& bodies_in_bounds(st.pool)
}

/// The enclosing compilers keep their code and their constants.
pub open spec fn chain_kept(before: Seq<CView>, after: Seq<CView>) -> bool {
    &&& after.len() == before.len()
    &&& forall|i: int| 0 <= i < before.len() ==>
        #[trigger] after[i].instructions == before[i].instructions && after[i].constants == before[i].constants
}

/// What a compile step keeps: the enclosing compilers, the current
/// compiler's own constants; and the code and the pool do not shrink.
pub open spec fn shape_kept(st: CState, st2: CState) -> bool {
    &&& chain_kept(st.chain, st2.chain)
    &&& st2.cur.constants == st.cur.constants
    &&& st.cur.instructions.len() <= st2.cur.instructions.len()
    &&& st.pool.len() <= st2.pool.len()
}

/// `new` begins with `old`.
pub open spec fn keeps_prefix(old: Seq<Opcode>, new: Seq<Opcode>) -> bool {
    &&& old.len() <= new.len()
    &&& forall|i: int| 0 <= i < old.len() ==> #[trigger] new[i] == old[i]
}

/// Every jump in `code` from position `lo` on targets `n0` or later.
pub open spec fn targets_from(code: Seq<Opcode>, lo: int, n0: int) -> bool {
    forall|i: int| lo <= i < code.len() ==> (#[trigger] jump_target(code[i]) matches Some(t) ==> n0 <= t)
}

/// The code of a step (whose positions fit in `usize`) begins with the code
/// before it, and its new jumps target no earlier than where it began.
pub open spec fn grows(st: CState, st2: CState) -> bool {
    st2.cur.instructions.len() <= usize::MAX ==> {
        &&& keeps_prefix(st.cur.instructions, st2.cur.instructions)
        &&& targets_from(st2.cur.instructions, st.cur.instructions.len() as int, st.cur.instructions.len() as int)
    }
}

/// A compile step from `st` to `st2`: it keeps the shape, code that was in
/// bounds stays in bounds, and the code grows at its end.
pub open spec fn step_ok(st: CState, st2: CState) -> bool {
    &&& shape_kept(st, st2)
    &&& code_ok(st) ==> code_ok(st2)
    &&& grows(st, st2)
}

proof fn lemma_emit(st: CState, op: Opcode)
    ensures
        shape_kept(st, emit(st, op)),
        keeps_prefix(st.cur.instructions, emit(st, op).cur.instructions),
        (jump_target(op) matches Some(t) ==> st.cur.instructions.len() <= t) ==> grows(st, emit(st, op)),
        code_ok(st) && (jump_target(op) matches Some(t) ==> t <= st.cur.instructions.len() + 1)
            && (constant_index(op) matches Some(k) ==> k < st.pool.len()) ==> code_ok(emit(st, op)),
{
    let code = st.cur.instructions;
    let code2 = code.push(op);
    if code_ok(st) && (jump_target(op) matches Some(t) ==> t <= st.cur.instructions.len() + 1)
        && (constant_index(op) matches Some(k) ==> k < st.pool.len()) {
        assert forall|i: int| 0 <= i < code2.len() implies (#[trigger] jump_target(code2[i]) matches Some(t) ==> t <= code2.len()) by {
            if i < code.len() {
                assert(code2[i] == code[i]);
                assert(jump_target(code[i]) matches Some(t) ==> t <= code.len());
            }
        }
        assert forall|i: int| 0 <= i < code2.len() implies (#[trigger] constant_index(code2[i]) matches Some(k) ==> k < st.pool.len()) by {
            if i < code.len() {
                assert(code2[i] == code[i]);
                assert(constant_index(code[i]) matches Some(k) ==> k < st.pool.len());
            }
        }
    }
}

proof fn lemma_patch(st: CState, idx: int, op: Opcode)
    requires
        0 <= idx < st.cur.instructions.len(),
        jump_target(op) matches Some(t) ==> t <= st.cur.instructions.len(),
        constant_index(op) is None,
    ensures
        shape_kept(st, patch(st, idx, op)),
        code_ok(st) ==> code_ok(patch(st, idx, op)),
{
    let code = st.cur.instructions;
    let code2 = code.update(idx, op);
    if code_ok(st) {
        assert forall|i: int| 0 <= i < code2.len() implies (#[trigger] jump_target(code2[i]) matches Some(t) ==> t <= code2.len()) by {
            if i != idx {
                assert(code2[i] == code[i]);
                assert(jump_target(code[i]) matches Some(t) ==> t <= code.len());
            }
        }
        assert forall|i: int| 0 <= i < code2.len() implies (#[trigger] constant_index(code2[i]) matches Some(k) ==> k < st.pool.len()) by {
            if i != idx {
                assert(code2[i] == code[i]);
                assert(constant_index(code[i]) matches Some(k) ==> k < st.pool.len());
            }
        }
    }
}

/// Adding a constant to the pool: what was in bounds stays so, and a body
/// that is in bounds for the larger pool keeps it so.
proof fn lemma_add_constant(st: CState, k: SpecConstant)
    ensures
        shape_kept(st, CState { pool: st.pool.push(k), ..st }),
        code_ok(st) && (k matches SpecConstant::Function { instructions, .. }
            ==> jumps_in_bounds(instructions) && constants_below(instructions, st.pool.len() + 1int))
            ==> code_ok(CState { pool: st.pool.push(k), ..st }),
{
    let pool = st.pool;
    let pool2 = pool.push(k);
    if code_ok(st) && (k matches SpecConstant::Function { instructions, .. }
        ==> jumps_in_bounds(instructions) && constants_below(instructions, st.pool.len() + 1int)) {
        assert forall|i: int| 0 <= i < pool2.len() implies (#[trigger] pool2[i] matches SpecConstant::Function { instructions, .. }
            ==> jumps_in_bounds(instructions) && constants_below(instructions, pool2.len() as int)) by {
            if i < pool.len() {
                assert(pool2[i] == pool[i]);
                if let SpecConstant::Function { instructions, .. } = pool[i] {
                    assert(constants_below(instructions, pool.len() as int));
                    assert forall|j: int| 0 <= j < instructions.len() implies
                        (#[trigger] constant_index(instructions[j]) matches Some(c) ==> c < pool2.len()) by {
                        assert(constant_index(instructions[j]) matches Some(c) ==> c < pool.len());
                    }
                }
            }
        }
        let code = st.cur.instructions;
        assert forall|j: int| 0 <= j < code.len() implies
            (#[trigger] constant_index(code[j]) matches Some(c) ==> c < pool2.len()) by {
            assert(constant_index(code[j]) matches Some(c) ==> c < pool.len());
        }
    }
}

proof fn lemma_emit_constant(st: CState, k: SpecConstant)
    requires
        !(k is Function),
    ensures
        step_ok(st, emit_constant(st, k)),
{
    lemma_add_constant(st, k);
    let st1 = CState { pool: st.pool.push(k), ..st };
    lemma_emit(st1, Opcode::OpConstant(st.pool.len() as usize));
}

proof fn lemma_define(st: CState, name: Seq<char>)
    ensures
        step_ok(st, define(st, name)),
{
    let c2 = crate::compiler::codegen::add_symbol(st.cur, name).0;
    let st1 = CState { cur: c2, ..st };
    assert(c2.instructions == st.cur.instructions);
    let idx = crate::compiler::codegen::add_symbol(st.cur, name).1;
    let op = crate::compiler::codegen::store_op(c2, idx);
    lemma_emit(st1, op);
    lemma_emit(emit(st1, op), Opcode::OpPop);
}

#[verifier::spinoff_prover]
proof fn lemma_resolve(c: CView, chain: Seq<CView>, name: Seq<char>)
    ensures
        resolve(c, chain, name).0.instructions == c.instructions,
        resolve(c, chain, name).0.constants == c.constants,
        chain_kept(chain, resolve(c, chain, name).1),
    decreases chain.len(),
{
    if !c.is_top_level && index_of(c.symbols, name) is Some {
    } else if crate::compiler::codegen::lookup_global(c.globals, name) is Some {
    } else if chain.len() > 0 {
        lemma_resolve(chain.last(), chain.drop_last(), name);
        let (p, rest, scope) = resolve(chain.last(), chain.drop_last(), name);
        let chain2 = rest.push(p);
        assert(rest.len() == chain.len() - 1);
        assert(resolve(c, chain, name).1 == chain2);
        assert forall|i: int| 0 <= i < chain.len() implies #[trigger] chain2[i].instructions == chain[i].instructions
            && chain2[i].constants == chain[i].constants by {
            if i < chain.len() - 1 {
                assert(chain2[i] == rest[i]);
                assert(rest[i].instructions == chain.drop_last()[i].instructions);
                assert(rest[i].constants == chain.drop_last()[i].constants);
            }
        }
    }
}

proof fn lemma_resolve_in(st: CState, name: Seq<char>)
    ensures
        step_ok(st, resolve_in(st, name).0),
{
    lemma_resolve(st.cur, st.chain, name);
}

proof fn lemma_add_params(c: CView, params: Seq<String>)
    ensures
        add_params(c, params).instructions == c.instructions,
        add_params(c, params).constants == c.constants,
    decreases params.len(),
{
    if params.len() > 0 {
        lemma_add_params(c, params.subrange(0, params.len() - 1));
    }
}

proof fn lemma_enter(st: CState, params: Seq<String>)
    ensures
        code_ok(st) ==> code_ok(enter_function(st, params)),
        enter_function(st, params).cur.constants == Seq::<SpecConstant>::empty(),
{
    lemma_add_params(child_view(st.cur), params);
}

#[verifier::spinoff_prover]
#[verifier::rlimit(60)]
proof fn lemma_finish(st: CState, params: Seq<String>, inner: CState, name: Seq<char>, is_async: bool, always: bool)
    requires
        step_ok(enter_function(st, params), inner),
    ensures
        step_ok(st, finish_function(inner, name, is_async, always)),
{
    lemma_enter(st, params);
    assert(shape_kept(enter_function(st, params), inner));
    let outer_chain = st.chain.push(st.cur);
    assert(inner.chain.len() == outer_chain.len());
    assert(outer_chain[st.chain.len() as int] == st.cur);
    assert(inner.chain.last().instructions == st.cur.instructions);
    assert(inner.chain.last().constants == st.cur.constants);
    let left_chain = inner.chain.drop_last();
    assert forall|i: int| 0 <= i < st.chain.len() implies #[trigger] left_chain[i].instructions == st.chain[i].instructions
        && left_chain[i].constants == st.chain[i].constants by {
        assert(left_chain[i] == inner.chain[i]);
        assert(outer_chain[i] == st.chain[i]);
    }
    let k = crate::compiler::codegen::function_constant(name, inner.cur, is_async);
    let parent = inner.chain.last();
    let left = CState {
        cur: CView { globals: inner.cur.globals, global_counter: inner.cur.global_counter, ..parent },
        chain: left_chain,
        pool: inner.pool,
    };
    if code_ok(st) {
        let code = st.cur.instructions;
        assert forall|j: int| 0 <= j < code.len() implies
            (#[trigger] constant_index(code[j]) matches Some(c) ==> c < inner.pool.len()) by {
            assert(constant_index(code[j]) matches Some(c) ==> c < st.pool.len());
        }
        assert(code_ok(left));
        let ic = inner.cur.instructions;
        assert forall|j: int| 0 <= j < ic.len() implies
            (#[trigger] constant_index(ic[j]) matches Some(c) ==> c < inner.pool.len() + 1) by {
            assert(constant_index(ic[j]) matches Some(c) ==> c < inner.pool.len());
        }
    }
    lemma_add_constant(left, k);
    let st2 = CState { pool: inner.pool.push(k), ..left };
    assert(chain_kept(st.chain, left_chain));
    assert(shape_kept(st, left));
    assert(shape_kept(st, st2));
    let kidx = inner.pool.len() as usize;
    let uvs = inner.cur.upvalues;
    if always || uvs.len() > 0 {
        lemma_emit(st2, Opcode::OpClosure(kidx, uvs.len() as usize));
        let st3 = emit(st2, Opcode::OpClosure(kidx, uvs.len() as usize));
        let code = st3.cur.instructions;
        let extra = uvs.map_values(|u: UpvalueInfo| descriptor(u));
        let code2 = code + extra;
        let n0 = st.cur.instructions.len() as int;
        assert forall|i: int| 0 <= i < n0 implies #[trigger] code2[i] == st.cur.instructions[i] by {
            assert(code2[i] == code[i]);
        }
        assert forall|i: int| n0 <= i < code2.len() implies
            (#[trigger] jump_target(code2[i]) matches Some(t) ==> n0 <= t) by {
            if i < code.len() {
                assert(code2[i] == code[i]);
            } else {
                assert(code2[i] == extra[i - code.len()]);
            }
        }
        if code_ok(st) {
            assert forall|i: int| 0 <= i < code2.len() implies (#[trigger] jump_target(code2[i]) matches Some(t) ==> t <= code2.len()) by {
                if i < code.len() {
                    assert(code2[i] == code[i]);
                    assert(jump_target(code[i]) matches Some(t) ==> t <= code.len());
                } else {
                    assert(code2[i] == extra[i - code.len()]);
                }
            }
            assert forall|i: int| 0 <= i < code2.len() implies (#[trigger] constant_index(code2[i]) matches Some(c) ==> c < st3.pool.len()) by {
                if i < code.len() {
                    assert(code2[i] == code[i]);
                    assert(constant_index(code[i]) matches Some(c) ==> c < st3.pool.len());
                } else {
                    assert(code2[i] == extra[i - code.len()]);
                }
            }
        }
        assert(finish_function(inner, name, is_async, always).cur.instructions == code2);
        assert(keeps_prefix(st.cur.instructions, code2));
        assert(grows(st, finish_function(inner, name, is_async, always)));
        assert(shape_kept(st, finish_function(inner, name, is_async, always)));
        assert(code_ok(st) ==> code_ok(finish_function(inner, name, is_async, always)));
    } else {
        lemma_emit(st2, Opcode::OpConstant(kidx));
        assert(grows(st, finish_function(inner, name, is_async, always)));
        assert(shape_kept(st, finish_function(inner, name, is_async, always)));
        assert(code_ok(st) ==> code_ok(finish_function(inner, name, is_async, always)));
    }
}

proof fn lemma_block(st: CState, stmts: Seq<Statement>)
    ensures
        compile_block_spec(st, stmts) matches Ok(st2) ==> step_ok(st, st2),
    decreases stmts, 1int,
{
    if stmts.len() > 0 {
        let front = stmts.subrange(0, stmts.len() - 1);
        lemma_block(st, front);
        if let Ok(st2) = compile_block_spec(st, front) {
            lemma_stmt(st2, stmts[stmts.len() - 1]);
        }
    }
}

proof fn lemma_exprs(st: CState, es: Seq<Expression>)
    ensures
        compile_exprs_spec(st, es) matches Ok(st2) ==> step_ok(st, st2),
    decreases es, 1int,
{
    if es.len() > 0 {
        let front = es.subrange(0, es.len() - 1);
        lemma_exprs(st, front);
        if let Ok(st2) = compile_exprs_spec(st, front) {
            lemma_expr(st2, es[es.len() - 1]);
        }
    }
}

proof fn lemma_interp(st: CState, es: Seq<Expression>)
    ensures
        compile_interp_spec(st, es) matches Ok(st2) ==> step_ok(st, st2),
    decreases es, 1int,
{
    if es.len() > 0 {
        let front = es.subrange(0, es.len() - 1);
        lemma_interp(st, front);
        if let Ok(st2) = compile_interp_spec(st, front) {
            lemma_expr(st2, es[es.len() - 1]);
            if let Ok(st3) = compile_expr_spec(st2, es[es.len() - 1]) {
                lemma_emit(st3, Opcode::OpAdd);
            }
        }
    }
}

proof fn lemma_pairs(st: CState, ps: Seq<(String, Expression)>)
    ensures
        compile_pairs_spec(st, ps) matches Ok(st2) ==> step_ok(st, st2),
    decreases ps, 1int,
{
    if ps.len() > 0 {
        let front = ps.subrange(0, ps.len() - 1);
        lemma_pairs(st, front);
        if let Ok(st2) = compile_pairs_spec(st, front) {
            let last = ps[ps.len() - 1];
            lemma_emit_constant(st2, SpecConstant::Str(last.0@));
            lemma_expr(emit_constant(st2, SpecConstant::Str(last.0@)), last.1);
        }
    }
}

#[verifier::spinoff_prover]
#[verifier::rlimit(60)]
proof fn lemma_stmt(st: CState, s: Statement)
    ensures
        compile_stmt_spec(st, s) matches Ok(st2) ==> step_ok(st, st2),
    decreases s, 1int,
{
    match s {
        Statement::Import { path, item } => {
            lemma_emit_constant(st, SpecConstant::Str(path@));
            let st1 = emit_constant(st, SpecConstant::Str(path@));
            lemma_emit(st1, Opcode::OpImport);
            lemma_define(emit(st1, Opcode::OpImport), path@);
        },
        Statement::Let { name, value } => {
            lemma_expr(st, value);
            if let Ok(st1) = compile_expr_spec(st, value) {
                lemma_define(st1, name@);
            }
        },
        Statement::Const { name, value } => {
            lemma_expr(st, value);
            if let Ok(st1) = compile_expr_spec(st, value) {
                let consts = if st1.cur.const_symbols.contains(name@) {
                    st1.cur.const_symbols
                } else {
                    st1.cur.const_symbols.push(name@)
                };
                lemma_define(CState { cur: CView { const_symbols: consts, ..st1.cur }, ..st1 }, name@);
            }
        },
        Statement::Assign { name, value } => {
            lemma_expr(st, value);
            if let Ok(st1) = compile_expr_spec(st, value) {
                lemma_resolve_in(st1, name@);
                let (st2, scope) = resolve_in(st1, name@);
                let op = crate::compiler::codegen::set_op(scope);
                lemma_emit(st2, op);
                lemma_emit(emit(st2, op), Opcode::OpPop);
            }
        },
        Statement::Return(e) => {
            lemma_expr(st, e);
            if let Ok(st1) = compile_expr_spec(st, e) {
                lemma_emit(st1, Opcode::OpReturnValue);
            }
        },
        Statement::Block(stmts) => {
            lemma_block(st, stmts@);
        },
        Statement::If { .. } => {
            lemma_stmt_if(st, s);
        },
        Statement::While { condition, body } => {
            let start = here(st);
            lemma_expr(st, condition);
            if let Ok(st1) = compile_expr_spec(st, condition) {
                let jif = here(st1);
                lemma_emit(st1, Opcode::OpJumpIfFalse(0));
                let a = emit(st1, Opcode::OpJumpIfFalse(0));
                lemma_block(a, body@);
                if let Ok(st2) = compile_block_spec(a, body@) {
                    lemma_emit(st2, Opcode::OpJump(start));
                    let st3 = emit(st2, Opcode::OpJump(start));
                    lemma_patch(st3, jif as int, Opcode::OpJumpIfFalse(here(st3)));
                }
            }
        },
        Statement::For { .. } => {
            lemma_stmt_for(st, s);
        },
        Statement::Function { name, params, body, is_async } => {
            lemma_enter(st, params@);
            lemma_block(enter_function(st, params@), body@);
            if let Ok(inner) = compile_block_spec(enter_function(st, params@), body@) {
                lemma_finish(st, params@, inner, name@, is_async, false);
                lemma_define(finish_function(inner, name@, is_async, false), name@);
            }
        },
        Statement::Expression(e) => {
            lemma_expr(st, e);
            if let Ok(st1) = compile_expr_spec(st, e) {
                lemma_emit(st1, Opcode::OpPop);
            }
        },
        Statement::TryCatch { try_body, catch_param, catch_body } => {
            let ts = here(st);
            lemma_emit(st, Opcode::OpTryStart(0));
            let a = emit(st, Opcode::OpTryStart(0));
            lemma_block(a, try_body@);
            if let Ok(st1) = compile_block_spec(a, try_body@) {
                lemma_emit(st1, Opcode::OpTryEnd);
                let st2 = emit(st1, Opcode::OpTryEnd);
                let jmp = here(st2);
                lemma_emit(st2, Opcode::OpJump(0));
                let st3 = emit(st2, Opcode::OpJump(0));
                lemma_patch(st3, ts as int, Opcode::OpTryStart(here(st3)));
                let st4 = patch(st3, ts as int, Opcode::OpTryStart(here(st3)));
                lemma_define(st4, catch_param@);
                lemma_block(define(st4, catch_param@), catch_body@);
                if let Ok(st5) = compile_block_spec(define(st4, catch_param@), catch_body@) {
                    lemma_patch(st5, jmp as int, Opcode::OpJump(here(st5)));
                }
            }
        },
    }
}

#[verifier::spinoff_prover]
#[verifier::rlimit(60)]
proof fn lemma_stmt_if(st: CState, s: Statement)
    requires
        s is If,
    ensures
        compile_stmt_spec(st, s) matches Ok(st2) ==> step_ok(st, st2),
    decreases s, 0int,
{
    match s {
        Statement::If { condition, consequence, alternative } => {
            lemma_expr(st, condition);
            if let Ok(st1) = compile_expr_spec(st, condition) {
                let jif = here(st1);
                lemma_emit(st1, Opcode::OpJumpIfFalse(0));
                let a = emit(st1, Opcode::OpJumpIfFalse(0));
                lemma_block(a, consequence@);
                if let Ok(st2) = compile_block_spec(a, consequence@) {
                    match alternative {
                        Some(alt) => {
                            let jmp = here(st2);
                            lemma_emit(st2, Opcode::OpJump(0));
                            let st3 = emit(st2, Opcode::OpJump(0));
                            lemma_patch(st3, jif as int, Opcode::OpJumpIfFalse(here(st3)));
                            let st4 = patch(st3, jif as int, Opcode::OpJumpIfFalse(here(st3)));
                            lemma_block(st4, alt@);
                            if let Ok(st5) = compile_block_spec(st4, alt@) {
                                lemma_patch(st5, jmp as int, Opcode::OpJump(here(st5)));
                            }
                        },
                        None => {
                            lemma_patch(st2, jif as int, Opcode::OpJumpIfFalse(here(st2)));
                        },
                    }
                }
            }
        },
        _ => {},
    }
}

#[verifier::spinoff_prover]
#[verifier::rlimit(60)]
proof fn lemma_stmt_for(st: CState, s: Statement)
    requires
        s is For,
    ensures
        compile_stmt_spec(st, s) matches Ok(st2) ==> step_ok(st, st2),
    decreases s, 0int,
{
    match s {
        Statement::For { init, condition, update, body } => {
            lemma_stmt(st, *init);
            if let Ok(st0) = compile_stmt_spec(st, *init) {
                let start = here(st0);
                lemma_expr(st0, condition);
                if let Ok(st1) = compile_expr_spec(st0, condition) {
                    let jif = here(st1);
                    lemma_emit(st1, Opcode::OpJumpIfFalse(0));
                    let a = emit(st1, Opcode::OpJumpIfFalse(0));
                    lemma_block(a, body@);
                    if let Ok(st2) = compile_block_spec(a, body@) {
                        lemma_stmt(st2, *update);
                        if let Ok(st3) = compile_stmt_spec(st2, *update) {
                            lemma_emit(st3, Opcode::OpJump(start));
                            let st4 = emit(st3, Opcode::OpJump(start));
                            lemma_patch(st4, jif as int, Opcode::OpJumpIfFalse(here(st4)));
                        }
                    }
                }
            }
        },
        _ => {},
    }
}

#[verifier::spinoff_prover]
#[verifier::rlimit(60)]
proof fn lemma_expr(st: CState, e: Expression)
    ensures
        compile_expr_spec(st, e) matches Ok(st2) ==> step_ok(st, st2),
    decreases e, 1int,
{
    match e {
        Expression::Null => {
            lemma_emit(st, Opcode::OpNull);
        },
        Expression::Boolean(b) => {
            lemma_emit(st, if b { Opcode::OpTrue } else { Opcode::OpFalse });
        },
        Expression::String(x) => {
            lemma_emit_constant(st, SpecConstant::Str(x@));
        },
        Expression::Number(n) => {
            lemma_emit_constant(st, SpecConstant::Number(n@));
        },
        Expression::InterpolatedString(parts) => {
            lemma_interp(st, parts@);
        },
        Expression::Identifier(name) => {
            lemma_resolve_in(st, name@);
            let (st1, scope) = resolve_in(st, name@);
            lemma_emit(st1, crate::compiler::codegen::get_op(scope));
        },
        Expression::Postfix { operator, operand } => {
            lemma_resolve_in(st, operand@);
            let (st1, scope) = resolve_in(st, operand@);
            lemma_emit(st1, crate::compiler::codegen::get_op(scope));
            let a = emit(st1, crate::compiler::codegen::get_op(scope));
            lemma_emit_constant(a, SpecConstant::Number("1"@));
            let st2 = emit_constant(a, SpecConstant::Number("1"@));
            lemma_emit(st2, Opcode::OpAdd);
            lemma_emit(st2, Opcode::OpSub);
            let st3 = match operator {
                Token::PlusPlus => emit(st2, Opcode::OpAdd),
                Token::MinusMinus => emit(st2, Opcode::OpSub),
                _ => st2,
            };
            lemma_emit(st3, crate::compiler::codegen::set_op(scope));
        },
        Expression::FunctionLiteral { params, body } => {
            lemma_enter(st, params@);
            lemma_block(enter_function(st, params@), body@);
            if let Ok(inner) = compile_block_spec(enter_function(st, params@), body@) {
                lemma_finish(st, params@, inner, "anonymous"@, false, true);
            }
        },
        _ => {
            lemma_expr_nested(st, e);
        },
    }
}

#[verifier::spinoff_prover]
#[verifier::rlimit(60)]
proof fn lemma_expr_nested(st: CState, e: Expression)
    requires
        e is Binary || e is Call || e is Prefix || e is Shell || e is Await || e is Array || e is Object
            || e is Index || e is Member || e is MethodCall,
    ensures
        compile_expr_spec(st, e) matches Ok(st2) ==> step_ok(st, st2),
    decreases e, 0int,
{
    match e {
        Expression::Binary { left, operator, right } => {
            lemma_expr(st, *left);
            if let Ok(st1) = compile_expr_spec(st, *left) {
                lemma_expr(st1, *right);
                if let Ok(st2) = compile_expr_spec(st1, *right) {
                    if let Some(op) = crate::compiler::codegen::binary_op(operator) {
                        lemma_emit(st2, op);
                    }
                }
            }
        },
        Expression::Call { function, arguments } => {
            lemma_expr(st, *function);
            if let Ok(st1) = compile_expr_spec(st, *function) {
                lemma_exprs(st1, arguments@);
                if let Ok(st2) = compile_exprs_spec(st1, arguments@) {
                    lemma_emit(st2, Opcode::OpCall(arguments@.len() as usize));
                }
            }
        },
        Expression::Prefix { operator, right } => {
            lemma_expr(st, *right);
            if let Ok(st1) = compile_expr_spec(st, *right) {
                lemma_emit(st1, Opcode::OpNot);
                lemma_emit_constant(st1, SpecConstant::Number("0"@));
                lemma_emit(emit_constant(st1, SpecConstant::Number("0"@)), Opcode::OpSub);
            }
        },
        Expression::Shell(inner) => {
            lemma_expr(st, *inner);
            if let Ok(st1) = compile_expr_spec(st, *inner) {
                lemma_emit(st1, Opcode::OpShellExecute);
            }
        },
        Expression::Await(inner) => {
            lemma_expr(st, *inner);
            if let Ok(st1) = compile_expr_spec(st, *inner) {
                lemma_emit(st1, Opcode::OpAwait);
            }
        },
        Expression::Array(elements) => {
            lemma_exprs(st, elements@);
            if let Ok(st1) = compile_exprs_spec(st, elements@) {
                lemma_emit(st1, Opcode::OpArray(elements@.len() as usize));
            }
        },
        Expression::Object(pairs) => {
            lemma_pairs(st, pairs@);
            if let Ok(st1) = compile_pairs_spec(st, pairs@) {
                lemma_emit(st1, Opcode::OpObject(pairs@.len() as usize));
            }
        },
        Expression::Index { object, index } => {
            lemma_expr(st, *object);
            if let Ok(st1) = compile_expr_spec(st, *object) {
                lemma_expr(st1, *index);
                if let Ok(st2) = compile_expr_spec(st1, *index) {
                    lemma_emit(st2, Opcode::OpIndex);
                }
            }
        },
        Expression::Member { object, field } => {
            lemma_expr(st, *object);
            if let Ok(st1) = compile_expr_spec(st, *object) {
                lemma_emit_constant(st1, SpecConstant::Str(field@));
                lemma_emit(emit_constant(st1, SpecConstant::Str(field@)), Opcode::OpIndex);
            }
        },
        Expression::MethodCall { object, method, arguments } => {
            lemma_expr(st, *object);
            if let Ok(st1) = compile_expr_spec(st, *object) {
                lemma_emit_constant(st1, SpecConstant::Str(method@));
                let a = emit_constant(st1, SpecConstant::Str(method@));
                lemma_exprs(a, arguments@);
                if let Ok(st2) = compile_exprs_spec(a, arguments@) {
                    lemma_emit(st2, Opcode::OpMethodCall(arguments@.len() as usize));
                }
            }
        },
        _ => {},
    }
}

/// The state a program's compilation starts from.
pub open spec fn program_start(c: CView) -> CState {
    CState { cur: CView { constants: seq![], ..c }, chain: seq![], pool: c.constants }
}

/// Every jump that compiling a program emits, in the program's own code and
/// in each function body that it adds to the constant pool, targets an
/// instruction of the same code or the position just past its end.
pub proof fn law_jumps_stay_in_code(c: CView, stmts: Seq<Statement>)
    requires
        jumps_in_bounds(c.instructions),
        constants_below(c.instructions, c.constants.len() as int),
        bodies_in_bounds(c.constants),
    ensures
        compile_program_spec(c, stmts) matches Ok(c2) ==> jumps_in_bounds(c2.instructions)
            && forall|i: int| 0 <= i < c2.constants.len() ==>
                (#[trigger] c2.constants[i] matches SpecConstant::Function { instructions, .. } ==> jumps_in_bounds(instructions)),
{
    lemma_block(program_start(c), stmts);
}

/// Every constant that compiled code loads (`OpConstant`, `OpClosure`), in
/// the program's own code and in every function body at any depth, is in the
/// program's single constant pool.
pub proof fn law_constants_stay_in_pool(c: CView, stmts: Seq<Statement>)
    requires
        jumps_in_bounds(c.instructions),
        constants_below(c.instructions, c.constants.len() as int),
        bodies_in_bounds(c.constants),
    ensures
        compile_program_spec(c, stmts) matches Ok(c2) ==> constants_below(c2.instructions, c2.constants.len() as int)
            && forall|i: int| 0 <= i < c2.constants.len() ==>
                (#[trigger] c2.constants[i] matches SpecConstant::Function { instructions, .. }
                    ==> constants_below(instructions, c2.constants.len() as int)),
{
    lemma_block(program_start(c), stmts);
}

/// Compiling more statements leaves the code compiled so far as it was, and
/// every jump it adds targets the old end of the code or a later position
/// (for code whose positions fit in `usize`, as those of any compiler do).
pub proof fn law_code_grows_at_its_end(c: CView, stmts: Seq<Statement>)
    ensures
        compile_program_spec(c, stmts) matches Ok(c2) ==> (c2.instructions.len() <= usize::MAX ==> {
            &&& keeps_prefix(c.instructions, c2.instructions)
            &&& targets_from(c2.instructions, c.instructions.len() as int, c.instructions.len() as int)
        }),
{
    lemma_block(program_start(c), stmts);
}

/// From a new compiler, every program that compiles has each jump inside its
/// code and each loaded constant in the pool, in the program's code and in
/// every function body at any depth.
pub proof fn law_fresh_compile_in_bounds(stmts: Seq<Statement>)
    ensures
        compile_program_spec(fresh_view(), stmts) matches Ok(c2) ==> {
            &&& jumps_in_bounds(c2.instructions)
            &&& constants_below(c2.instructions, c2.constants.len() as int)
            &&& bodies_in_bounds(c2.constants)
        },
{
    let c = fresh_view();
    assert(jumps_in_bounds(c.instructions));
    assert(constants_below(c.instructions, c.constants.len() as int));
    assert(bodies_in_bounds(c.constants));
    lemma_block(program_start(c), stmts);
}

proof fn lemma_block_concat(st: CState, a: Seq<Statement>, b: Seq<Statement>)
    ensures
        compile_block_spec(st, a + b) == (match compile_block_spec(st, a) {
            Ok(s) => compile_block_spec(s, b),
            Err(e) => Err(e),
        }),
    decreases b.len(),
{
    if b.len() == 0 {
        assert(a + b =~= a);
    } else {
        let b1 = b.subrange(0, b.len() - 1);
        lemma_block_concat(st, a, b1);
        let ab = a + b;
        assert(ab.subrange(0, ab.len() - 1) =~= a + b1);
        assert(ab[ab.len() - 1] == b[b.len() - 1]);
    }
}

/// Compiling a program in two parts, the second with the compiler the first
/// left, is compiling the whole program at once; a refusal in the first part
/// is the refusal of the whole.
pub proof fn law_compile_in_parts(c: CView, a: Seq<Statement>, b: Seq<Statement>)
    ensures
        compile_program_spec(c, a + b) == (match compile_program_spec(c, a) {
            Ok(c1) => compile_program_spec(c1, b),
            Err(e) => Err(e),
        }),
{
    let st = program_start(c);
    lemma_block_concat(st, a, b);
    lemma_block(st, a);
    if let Ok(s1) = compile_block_spec(st, a) {
        assert(s1.chain =~= seq![]);
        let c1 = CView { constants: s1.pool, ..s1.cur };
        assert(s1.cur.constants =~= seq![]);
        assert(program_start(c1) == s1);
    }
}

/// A binary expression compiles to its left operand's code, then its right
/// operand's code, then exactly one instruction: the one that performs the
/// operator's operation (`+` adds, `-` subtracts, `*` multiplies, `/`
/// divides, `%` takes the remainder, `==` and `!=` compare for equality,
/// `>`, `<`, `>=` and `<=` compare by order). Nothing else changes, and a
/// token that is no binary operator adds no instruction.
pub proof fn law_binary_ends_with_its_operation(st: CState, left: Expression, operator: Token, right: Expression)
    requires
        compile_expr_spec(st, left) is Ok,
        compile_expr_spec(compile_expr_spec(st, left)->Ok_0, right) is Ok,
    ensures
        ({
            let s2 = compile_expr_spec(compile_expr_spec(st, left)->Ok_0, right)->Ok_0;
            let r = compile_expr_spec(st, Expression::Binary { left: Box::new(left), operator, right: Box::new(right) });
            let code = s2.cur.instructions;
            &&& r is Ok
            &&& r->Ok_0.pool == s2.pool
            &&& r->Ok_0.chain == s2.chain
            &&& (CView { instructions: code, ..r->Ok_0.cur }) == s2.cur
            &&& (operator == Token::Plus ==> r->Ok_0.cur.instructions == code.push(Opcode::OpAdd))
            &&& (operator == Token::Minus ==> r->Ok_0.cur.instructions == code.push(Opcode::OpSub))
            &&& (operator == Token::Star ==> r->Ok_0.cur.instructions == code.push(Opcode::OpMul))
            &&& (operator == Token::Slash ==> r->Ok_0.cur.instructions == code.push(Opcode::OpDiv))
            &&& (operator == Token::Modulo ==> r->Ok_0.cur.instructions == code.push(Opcode::OpModulo))
            &&& (operator == Token::Equal ==> r->Ok_0.cur.instructions == code.push(Opcode::OpEqual))
            &&& (operator == Token::NotEqual ==> r->Ok_0.cur.instructions == code.push(Opcode::OpNotEqual))
            &&& (operator == Token::GT ==> r->Ok_0.cur.instructions == code.push(Opcode::OpGT))
            &&& (operator == Token::LT ==> r->Ok_0.cur.instructions == code.push(Opcode::OpLT))
            &&& (operator == Token::GTE ==> r->Ok_0.cur.instructions == code.push(Opcode::OpGTE))
            &&& (operator == Token::LTE ==> r->Ok_0.cur.instructions == code.push(Opcode::OpLTE))
            &&& (!(operator == Token::Plus || operator == Token::Minus || operator == Token::Star
                || operator == Token::Slash || operator == Token::Modulo || operator == Token::Equal
                || operator == Token::NotEqual || operator == Token::GT || operator == Token::LT
                || operator == Token::GTE || operator == Token::LTE) ==> r->Ok_0 == s2)
        }),
{
}

} // verus!
