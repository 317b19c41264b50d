use erox::compiler::codegen::Compiler;
use erox::compiler::lexer::Lexer;
use erox::compiler::parser::Parser;
use erox::vm::machine::{DataKind, Program, Value, VmAction, VmEvent, VmState};
use erox::vm::object::Constant;
use erox::vm::opcodes::Opcode;

fn program(src: &str) -> Vec<Program> {
    let mut parser = Parser::new(Lexer::new(src.to_string()));
    let stmts = parser.parse_program();
    assert!(parser.errors.is_empty());
    let mut c = Compiler::new();
    c.compile(stmts);
    vec![Program { code: c.instructions, constants: c.constants }]
}

/// Runs to the end, answering each action with `answer`; gives the actions seen.
fn run(state: &mut VmState, progs: &Vec<Program>, mut answer: impl FnMut(&VmAction) -> VmEvent) -> Vec<String> {
    let mut seen = Vec::new();
    let mut pending: Option<VmEvent> = None;
    for _ in 0..10_000 {
        let a = match pending.take() {
            Some(e) => state.vm_resume(e),
            None => state.vm_step(progs),
        };
        match &a {
            VmAction::Continue => {}
            VmAction::Halt => return seen,
            VmAction::Abort { reason } => panic!("aborted: {:?}", reason),
            VmAction::Uncaught { .. } => {
                seen.push("uncaught".to_string());
                return seen;
            }
            other => {
                seen.push(format!("{}", kind(other)));
                pending = Some(answer(other));
            }
        }
    }
    panic!("did not halt");
}

fn kind(a: &VmAction) -> &'static str {
    match a {
        VmAction::Binary { .. } => "binary",
        VmAction::Constant { .. } => "constant",
        VmAction::CallNative { .. } => "native",
        _ => "other",
    }
}

#[test]
fn calls_return_their_value() {
    let progs = program("fn id(a) { return a } let x = id(true)");
    let mut s = VmState::new(0);
    let seen = run(&mut s, &progs, |_| VmEvent::Push(Value::Null));
    assert!(seen.is_empty());
    assert_eq!(s.get_global(1), Value::Bool(true));
}

#[test]
fn closures_keep_captured_variables_after_return() {
    let progs = program("fn outer(a) { let g = (b) => a; return g } let h = outer(true) let y = h(false)");
    let mut s = VmState::new(0);
    run(&mut s, &progs, |_| VmEvent::Push(Value::Null));
    assert_eq!(s.get_global(2), Value::Bool(true));
    assert!(s.open.is_empty());
}

#[test]
fn awaiting_a_future_runs_the_call() {
    let progs = program("async fn f(a) { return a } let p = f(true) let r = await p");
    let mut s = VmState::new(0);
    run(&mut s, &progs, |_| VmEvent::Push(Value::Null));
    assert!(matches!(s.get_global(1), Value::Future(_)));
    assert_eq!(s.get_global(2), Value::Bool(true));
}

#[test]
fn a_thrown_value_goes_to_the_catch() {
    let progs = vec![Program {
        code: vec![Opcode::OpTryStart(3), Opcode::OpFalse, Opcode::OpThrow, Opcode::OpSetGlobal(0), Opcode::OpPop],
        constants: vec![],
    }];
    let mut s = VmState::new(0);
    run(&mut s, &progs, |_| VmEvent::Push(Value::Null));
    assert_eq!(s.get_global(0), Value::Bool(false));
    assert!(s.handlers.handlers.is_empty());
}

#[test]
fn an_uncaught_throw_is_reported() {
    let progs = vec![Program { code: vec![Opcode::OpTrue, Opcode::OpThrow, Opcode::OpSetGlobal(0)], constants: vec![] }];
    let mut s = VmState::new(0);
    let seen = run(&mut s, &progs, |_| VmEvent::Push(Value::Null));
    assert_eq!(seen, vec!["uncaught".to_string()]);
    assert_eq!(s.get_global(0), Value::Null);
}

#[test]
fn numbers_are_left_to_the_host() {
    let progs = program("let s = 1 + 2");
    assert!(matches!(progs[0].constants[0], Constant::Number(_)));
    let mut s = VmState::new(0);
    let mut next = 10;
    let seen = run(&mut s, &progs, |_| {
        next += 1;
        VmEvent::Push(Value::Data(DataKind::Number, next))
    });
    assert_eq!(seen, vec!["constant", "constant", "binary"]);
    assert_eq!(s.get_global(0), Value::Data(DataKind::Number, 13));
}

#[test]
fn builtins_are_called_through_the_host() {
    let progs = program("print(true, false)");
    let mut s = VmState::new(0);
    s.set_global(0, Value::Native(7));
    let mut args = Vec::new();
    let seen = run(&mut s, &progs, |a| {
        if let VmAction::CallNative { native, args: xs } = a {
            assert_eq!(*native, 7);
            args = xs.clone();
        }
        VmEvent::Push(Value::Null)
    });
    assert_eq!(seen, vec!["native"]);
    assert_eq!(args, vec![Value::Bool(true), Value::Bool(false)]);
}

#[test]
fn loops_jump_back_until_the_condition_fails() {
    let progs = vec![Program {
        code: vec![
            Opcode::OpGetGlobal(0),
            Opcode::OpNot,
            Opcode::OpJumpIfFalse(6),
            Opcode::OpTrue,
            Opcode::OpSetGlobal(0),
            Opcode::OpJump(0),
        ],
        constants: vec![],
    }];
    let mut s = VmState::new(0);
    run(&mut s, &progs, |_| VmEvent::Push(Value::Null));
    assert_eq!(s.get_global(0), Value::Bool(true));
}
