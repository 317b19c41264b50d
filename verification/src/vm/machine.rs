//! The stack machine's control: one instruction at a time, it keeps the value
//! stack, the call frames, the globals and locals, the captured variables
//! (upvalues), closures, futures and `try` handlers, and decides jumps, calls
//! and returns.
//!
//! What needs the values themselves (numbers are `f64`, strings, arrays and
//! objects are shared and mutable) is handed to the host as a `VmAction`:
//! arithmetic and comparisons, loading number and string constants, building
//! and indexing collections, method calls, built-in functions, imports and
//! shell commands. The host performs it and answers with a `VmEvent`: a value
//! to push, or an error to raise.
use vstd::prelude::*;
use crate::vm::control::{call_step, entered, left, routed, CallStep, CalleeKind, ErrorRoute, TryHandler, TryStack};
use crate::vm::object::{Constant, SpecConstant};
use crate::vm::opcodes::Opcode;

verus! {

/// The kinds of value the host holds.
#[derive(Debug, Clone, Copy, PartialEq, Eq, Structural)]
pub enum DataKind {
    Number,
    String,
    Array,
    Object,
}

/// A compiled function: constant `index` of program `prog`; `sync` where it
/// runs as an ordinary function although it is async (an awaited future).
#[derive(Debug, Clone, Copy, PartialEq, Eq, Structural)]
pub struct FnRef {
    pub prog: usize,
    pub index: usize,
    pub sync: bool,
}

/// A value on the machine's stack.
#[derive(Debug, Clone, Copy, PartialEq, Eq, Structural)]
pub enum Value {
    Null,
    Bool(bool),
    /// A value the host holds, by its handle.
    Data(DataKind, usize),
    Func(FnRef),
    /// A closure: an index into the closures.
    Closure(usize),
    /// A built-in function of the host, by its number.
    Native(usize),
    /// A pending async call: an index into the futures.
    Future(usize),
}

/// A captured variable: still a stack slot, or closed over with its value.
#[derive(Debug, Clone, Copy, PartialEq, Eq, Structural)]
pub enum Cell {
    Open(usize),
    Closed(Value),
}

/// The code a frame runs: a program's top level, or a compiled function.
#[derive(Debug, Clone, Copy, PartialEq, Eq, Structural)]
pub enum CodeRef {
    Main(usize),
    Func(FnRef),
}

/// A call frame: its code, the next instruction, where its locals start on
/// the stack, and the closure whose captured variables it sees.
#[derive(Debug, Clone, Copy, PartialEq, Eq, Structural)]
pub struct Frame {
    pub code: CodeRef,
    pub ip: usize,
    pub base: usize,
    pub env: Option<usize>,
}

/// A closure: its function and its captured variables, the cell numbers at
/// `env_cells[start..start + len]`.
#[derive(Debug, Clone, Copy, PartialEq, Eq, Structural)]
pub struct ClosureInfo {
    pub func: FnRef,
    pub start: usize,
    pub len: usize,
}

/// A pending async call: the function, the closure it came from (if any),
/// and its arguments `future_args[start..start + len]`.
#[derive(Debug, Clone, Copy, PartialEq, Eq, Structural)]
pub struct FutureInfo {
    pub func: FnRef,
    pub env: Option<usize>,
    pub start: usize,
    pub len: usize,
}

/// Why the machine stops where the original machine panics.
#[derive(Debug, Clone, Copy, PartialEq, Eq, Structural)]
pub enum AbortReason {
    /// A frame ran more than `MAX_INSTRUCTIONS` instructions.
    InstructionLimit,
    /// The stack held more than `MAX_STACK_SIZE` values before an instruction.
    StackOverflow,
    /// A jump to a position past the end of the code.
    JumpOutOfBounds,
    /// A local, captured variable, constant or descriptor that does not exist.
    BadReference,
    /// A call or method call with fewer values on the stack than it takes.
    StackUnderflow,
}

/// What the host is asked to do.
pub enum VmAction {
    /// Nothing: run the next step.
    Continue,
    /// Compute `left op right` for an arithmetic, modulo or comparison
    /// instruction, and answer with the result.
    Binary { op: Opcode, left: Value, right: Value },
    /// Make the value of number or string constant `index` of program `prog`.
    Constant { prog: usize, index: usize },
    MakeArray { items: Vec<Value> },
    /// Make an object from key/value pairs, laid out key, value, key, value.
    MakeObject { items: Vec<Value> },
    Index { collection: Value, index: Value },
    /// Set an element; answer with `value`, or null where it cannot be set.
    SetIndex { collection: Value, index: Value, value: Value },
    CallNative { native: usize, args: Vec<Value> },
    /// Call a method; answer with its result, or raise its error.
    MethodCall { receiver: Value, method: Value, args: Vec<Value> },
    Shell { command: Value },
    Import { path: Value },
    /// An error no `try` block catches: report it and stop.
    Uncaught { error: Value },
    Abort { reason: AbortReason },
    /// The program has ended.
    Halt,
}

/// The host's answer to an action.
pub enum VmEvent {
    Push(Value),
    Raise(Value),
}

/// The view of an action: its lists as sequences.
pub enum ActionView {
    Continue,
    Binary { op: Opcode, left: Value, right: Value },
    Constant { prog: usize, index: usize },
    MakeArray { items: Seq<Value> },
    MakeObject { items: Seq<Value> },
    Index { collection: Value, index: Value },
    SetIndex { collection: Value, index: Value, value: Value },
    CallNative { native: usize, args: Seq<Value> },
    MethodCall { receiver: Value, method: Value, args: Seq<Value> },
    Shell { command: Value },
    Import { path: Value },
    Uncaught { error: Value },
    Abort { reason: AbortReason },
    Halt,
}

impl View for VmAction {
    type V = ActionView;

    open spec fn view(&self) -> ActionView {
        match self {
            VmAction::Continue => ActionView::Continue,
            VmAction::Binary { op, left, right } => ActionView::Binary { op: *op, left: *left, right: *right },
            VmAction::Constant { prog, index } => ActionView::Constant { prog: *prog, index: *index },
            VmAction::MakeArray { items } => ActionView::MakeArray { items: items@ },
            VmAction::MakeObject { items } => ActionView::MakeObject { items: items@ },
            VmAction::Index { collection, index } => ActionView::Index { collection: *collection, index: *index },
            VmAction::SetIndex { collection, index, value } =>
                ActionView::SetIndex { collection: *collection, index: *index, value: *value },
            VmAction::CallNative { native, args } => ActionView::CallNative { native: *native, args: args@ },
            VmAction::MethodCall { receiver, method, args } =>
                ActionView::MethodCall { receiver: *receiver, method: *method, args: args@ },
            VmAction::Shell { command } => ActionView::Shell { command: *command },
            VmAction::Import { path } => ActionView::Import { path: *path },
            VmAction::Uncaught { error } => ActionView::Uncaught { error: *error },
            VmAction::Abort { reason } => ActionView::Abort { reason: *reason },
            VmAction::Halt => ActionView::Halt,
        }
    }
}

/// A compiled program: its top-level code and its constants.
pub struct Program {
    pub code: Vec<Opcode>,
    pub constants: Vec<Constant>,
}

/// A program's code and constants as sequences.
pub struct ProgView {
    pub code: Seq<Opcode>,
    pub constants: Seq<SpecConstant>,
}

pub open spec fn progs_view(progs: Seq<Program>) -> Seq<ProgView> {
    progs.map_values(|p: Program| ProgView { code: p.code@, constants: p.constants@.map_values(|c: Constant| c@) })
}

/// The instructions at most a frame may run before the machine stops.
pub const MAX_INSTRUCTIONS: usize = 10_000_000;

/// The values at most the stack may hold before an instruction.
pub const MAX_STACK_SIZE: usize = 1024;

/// The machine.
pub struct VmState {
    pub stack: Vec<Value>,
    /// The globals that were set: index and value.
    pub globals: Vec<(usize, Value)>,
    pub frame: Frame,
    /// The frames of the calls in progress, innermost last.
    pub frames: Vec<Frame>,
    pub cells: Vec<Cell>,
    /// The cells still open (pointing at a stack slot), by number.
    pub open: Vec<usize>,
    pub closures: Vec<ClosureInfo>,
    pub env_cells: Vec<usize>,
    pub futures: Vec<FutureInfo>,
    pub future_args: Vec<Value>,
    pub handlers: TryStack,
    /// Instructions run in the current frame.
    pub count: usize,
    /// Waiting for the host's answer to an action.
    pub waiting: bool,
    /// The top-level code returned.
    pub halted: bool,
}

/// The machine's state as sequences.
pub struct VmView {
    pub stack: Seq<Value>,
    pub globals: Seq<(usize, Value)>,
    pub frame: Frame,
    pub frames: Seq<Frame>,
    pub cells: Seq<Cell>,
    pub open: Seq<usize>,
    pub closures: Seq<ClosureInfo>,
    pub env_cells: Seq<usize>,
    pub futures: Seq<FutureInfo>,
    pub future_args: Seq<Value>,
    pub handlers: Seq<TryHandler>,
    pub count: usize,
    pub waiting: bool,
    pub halted: bool,
}

impl View for VmState {
    type V = VmView;

    open spec fn view(&self) -> VmView {
        VmView {
            stack: self.stack@,
            globals: self.globals@,
            frame: self.frame,
            frames: self.frames@,
            cells: self.cells@,
            open: self.open@,
            closures: self.closures@,
            env_cells: self.env_cells@,
            futures: self.futures@,
            future_args: self.future_args@,
            handlers: self.handlers.handlers@,
            count: self.count,
            waiting: self.waiting,
            halted: self.halted,
        }
    }
}

// ── spec ─────────────────────────────────────────────────────────────────

/// A machine about to run the top level of program `prog`, with the given
/// globals and tables and nothing else.
pub open spec fn fresh_vm(
    prog: usize,
    globals: Seq<(usize, Value)>,
    cells: Seq<Cell>,
    closures: Seq<ClosureInfo>,
    env_cells: Seq<usize>,
    futures: Seq<FutureInfo>,
    future_args: Seq<Value>,
) -> VmView {
    VmView {
        stack: seq![],
        globals,
        frame: Frame { code: CodeRef::Main(prog), ip: 0, base: 0, env: None },
        frames: seq![],
        cells,
        open: seq![],
        closures,
        env_cells,
        futures,
        future_args,
        handlers: seq![],
        count: 0,
        waiting: false,
        halted: false,
    }
}

/// The first position of global `g` in `gs`.
pub open spec fn global_pos(gs: Seq<(usize, Value)>, g: usize) -> Option<int>
    decreases gs.len(),
{
    if gs.len() == 0 {
        None
    } else {
        match global_pos(gs.drop_last(), g) {
            Some(i) => Some(i),
            None => if gs.last().0 == g { Some(gs.len() - 1) } else { None },
        }
    }
}

/// The value of global `g`: null where it was never set.
pub open spec fn global_get(gs: Seq<(usize, Value)>, g: usize) -> Value {
    match global_pos(gs, g) {
        Some(i) => gs[i].1,
        None => Value::Null,
    }
}

pub open spec fn global_set(gs: Seq<(usize, Value)>, g: usize, v: Value) -> Seq<(usize, Value)> {
    match global_pos(gs, g) {
        Some(i) => gs.update(i, (g, v)),
        None => gs.push((g, v)),
    }
}

/// What function `f` is: its code, number of locals, and whether it runs
/// async; `None` where the constant is not a function.
pub open spec fn fn_info(progs: Seq<ProgView>, f: FnRef) -> Option<(Seq<Opcode>, usize, bool)> {
    if f.prog < progs.len() && f.index < progs[f.prog as int].constants.len() {
        match progs[f.prog as int].constants[f.index as int] {
            SpecConstant::Function { instructions, num_locals, is_async, .. } =>
                Some((instructions, num_locals, is_async && !f.sync)),
            _ => None,
        }
    } else {
        None
    }
}

/// The code a frame runs, where it exists.
pub open spec fn frame_code(progs: Seq<ProgView>, c: CodeRef) -> Option<Seq<Opcode>> {
    match c {
        CodeRef::Main(p) => if p < progs.len() { Some(progs[p as int].code) } else { None },
        CodeRef::Func(f) => match fn_info(progs, f) {
            Some(info) => Some(info.0),
            None => None,
        },
    }
}

pub open spec fn push_v(s: VmView, v: Value) -> VmView {
    VmView { stack: s.stack.push(v), ..s }
}

/// Pops the top value, or gives null on an empty stack.
pub open spec fn pop_v(s: VmView) -> (VmView, Value) {
    if s.stack.len() > 0 {
        (VmView { stack: s.stack.drop_last(), ..s }, s.stack.last())
    } else {
        (s, Value::Null)
    }
}

/// The cell behind captured variable `idx` of the current frame.
pub open spec fn env_cell(s: VmView, idx: usize) -> Option<usize> {
    match s.frame.env {
        Some(cid) => if cid < s.closures.len() && idx < s.closures[cid as int].len
            && s.closures[cid as int].start + idx < s.env_cells.len() {
            Some(s.env_cells[s.closures[cid as int].start + idx])
        } else {
            None
        },
        None => None,
    }
}

/// The first open cell that points at stack slot `slot`.
pub open spec fn open_pos(s: VmView, slot: usize) -> Option<int>
    decreases s.open.len(),
{
    if s.open.len() == 0 {
        None
    } else {
        match open_pos(VmView { open: s.open.drop_last(), ..s }, slot) {
            Some(i) => Some(i),
            None => {
                let c = s.open.last();
                if c < s.cells.len() && s.cells[c as int] == Cell::Open(slot) {
                    Some(s.open.len() - 1)
                } else {
                    None
                }
            },
        }
    }
}

/// The cell for stack slot `slot`: an open one that points at it, or a new
/// open cell.
pub open spec fn capture_spec(s: VmView, slot: usize) -> (VmView, usize) {
    match open_pos(s, slot) {
        Some(i) => (s, s.open[i]),
        None => (
            VmView { cells: s.cells.push(Cell::Open(slot)), open: s.open.push(s.cells.len() as usize), ..s },
            s.cells.len() as usize,
        ),
    }
}

/// Closes the open cells that point at slot `last_slot` or above, keeping the
/// others open in order; `None` where such a cell points past the stack.
pub open spec fn close_spec(s: VmView, last_slot: usize) -> Option<VmView>
    decreases s.open.len(),
{
    if s.open.len() == 0 {
        Some(s)
    } else {
        let c = s.open.last();
        match close_spec(VmView { open: s.open.drop_last(), ..s }, last_slot) {
            None => None,
            Some(t) => {
                if c < t.cells.len() && (t.cells[c as int] matches Cell::Open(i) && i >= last_slot) {
                    let i = t.cells[c as int]->Open_0;
                    if i < t.stack.len() {
                        Some(VmView { cells: t.cells.update(c as int, Cell::Closed(t.stack[i as int])), ..t })
                    } else {
                        None
                    }
                } else {
                    Some(VmView { open: t.open.push(c), ..t })
                }
            },
        }
    }
}

pub open spec fn abort(s: VmView, r: AbortReason) -> (VmView, ActionView) {
    (s, ActionView::Abort { reason: r })
}

/// Enters function `f` (code `code`, `num_locals` locals) seeing the
/// captured variables of closure `env`: the current frame is saved and the
/// new one starts at `base`, with null slots for the locals beyond the
/// arguments.
pub open spec fn enter_spec(s: VmView, f: FnRef, env: Option<usize>, num_locals: usize, arg_count: usize) -> VmView {
    let base = (s.stack.len() - arg_count) as usize;
    let extra = if num_locals > arg_count { (num_locals - arg_count) as nat } else { 0 };
    VmView {
        frames: s.frames.push(s.frame),
        frame: Frame { code: CodeRef::Func(f), ip: 0, base, env },
        stack: s.stack + Seq::new(extra, |i: int| Value::Null),
        count: 0,
        ..s
    }
}

/// A call of the value below `arg_count` arguments on the stack.
pub open spec fn call_spec(s: VmView, progs: Seq<ProgView>, arg_count: usize) -> (VmView, ActionView) {
    if s.stack.len() < arg_count + 1 {
        abort(s, AbortReason::StackUnderflow)
    } else {
        let at = s.stack.len() - arg_count - 1;
        let callee = s.stack[at];
        let from = s.stack.len() - arg_count;
        let target = match callee {
            Value::Func(f) => Some((f, None::<usize>)),
            Value::Closure(cid) => if cid < s.closures.len() { Some((s.closures[cid as int].func, Some(cid))) } else { None },
            _ => None,
        };
        match target {
            Some((f, env)) => match fn_info(progs, f) {
                Some((_, num_locals, is_async)) => {
                    if is_async {
                        let fut = FutureInfo { func: f, env, start: s.future_args.len() as usize, len: arg_count };
                        let t = VmView {
                            future_args: s.future_args + s.stack.subrange(from, s.stack.len() as int),
                            futures: s.futures.push(fut),
                            stack: s.stack.subrange(0, at).push(Value::Future(s.futures.len() as usize)),
                            ..s
                        };
                        (t, ActionView::Continue)
                    } else {
                        (enter_spec(s, f, env, num_locals, arg_count), ActionView::Continue)
                    }
                },
                None => abort(s, AbortReason::BadReference),
            },
            None => match callee {
                Value::Native(n) => (
                    VmView { stack: s.stack.subrange(0, at), waiting: true, ..s },
                    ActionView::CallNative { native: n, args: s.stack.subrange(from, s.stack.len() as int) },
                ),
                Value::Closure(_) => abort(s, AbortReason::BadReference),
                _ => (push_v(VmView { stack: s.stack.subrange(0, at), ..s }, Value::Null), ActionView::Continue),
            },
        }
    }
}

/// Raises `err`: the innermost `try` block catches it (the stack is cut to
/// its depth, the error pushed, and its `catch` runs next), or it is
/// uncaught.
pub open spec fn raise_spec(s: VmView, err: Value) -> (VmView, ActionView) {
    match routed(s.handlers) {
        (ErrorRoute::Catch { stack_depth, catch_ip }, hs) => {
            let kept = if stack_depth <= s.stack.len() { s.stack.subrange(0, stack_depth as int) } else { s.stack };
            (
                VmView { stack: kept.push(err), frame: Frame { ip: catch_ip, ..s.frame }, handlers: hs, ..s },
                ActionView::Continue,
            )
        },
        (ErrorRoute::Uncaught, hs) => (VmView { handlers: hs, halted: true, ..s }, ActionView::Uncaught { error: err }),
    }
}

/// Returns from the current frame with the value on top: captured
/// variables of its slots are closed, its slots and callee dropped, the value
/// pushed; then the caller's frame continues, or the program ends.
pub open spec fn return_spec(s: VmView) -> (VmView, ActionView) {
    let (t, res) = pop_v(s);
    match close_spec(t, t.frame.base) {
        None => abort(t, AbortReason::BadReference),
        Some(u) => {
            let keep = if u.frame.base > 0 { u.frame.base - 1 } else { 0 };
            let kept = if keep <= u.stack.len() { u.stack.subrange(0, keep as int) } else { u.stack };
            let w = VmView { stack: kept.push(res), ..u };
            if w.frames.len() > 0 {
                (VmView { frame: w.frames.last(), frames: w.frames.drop_last(), count: 0, ..w }, ActionView::Continue)
            } else {
                (VmView { halted: true, ..w }, ActionView::Halt)
            }
        },
    }
}

/// Pops two operands for a binary instruction; with fewer than two, pushes
/// `fallback` instead.
pub open spec fn binary_spec(s: VmView, op: Opcode, fallback: Value) -> (VmView, ActionView) {
    if s.stack.len() < 2 {
        (push_v(s, fallback), ActionView::Continue)
    } else {
        let n = s.stack.len();
        (
            VmView { stack: s.stack.subrange(0, n - 2), waiting: true, ..s },
            ActionView::Binary { op, left: s.stack[n - 2], right: s.stack[n - 1] },
        )
    }
}

/// Reads the `n` descriptors after an `OpClosure` and gathers the cells they
/// name, in order; `None` (with the state reached) where one is missing or
/// is not a descriptor.
pub open spec fn descriptors_spec(s: VmView, code: Seq<Opcode>, n: nat) -> (VmView, Option<Seq<usize>>)
    decreases n,
{
    if n == 0 {
        (s, Some(seq![]))
    } else {
        match descriptors_spec(s, code, (n - 1) as nat) {
            (t, None) => (t, None),
            (t, Some(got)) => {
                if t.frame.ip >= code.len() {
                    (t, None)
                } else {
                    let d = code[t.frame.ip as int];
                    let t1 = VmView { frame: Frame { ip: (t.frame.ip + 1) as usize, ..t.frame }, ..t };
                    match d {
                        Opcode::OpGetLocal(idx) => {
                            if t1.frame.base + idx > usize::MAX {
                                (t1, None)
                            } else {
                                let (t2, c) = capture_spec(t1, (t1.frame.base + idx) as usize);
                                (t2, Some(got.push(c)))
                            }
                        },
                        Opcode::OpGetUpvalue(idx) => match env_cell(t1, idx) {
                            Some(c) => (t1, Some(got.push(c))),
                            None => (t1, None),
                        },
                        _ => (t1, None),
                    }
                }
            },
        }
    }
}

/// Runs one instruction of code `code` (the current frame's), already past
/// the limit checks.
pub open spec fn exec_spec(s: VmView, progs: Seq<ProgView>, code: Seq<Opcode>, op: Opcode) -> (VmView, ActionView) {
    let prog = match s.frame.code {
        CodeRef::Main(p) => p,
        CodeRef::Func(f) => f.prog,
    };
    match op {
        Opcode::OpConstant(idx) => {
            if prog < progs.len() && idx < progs[prog as int].constants.len() {
                match progs[prog as int].constants[idx as int] {
                    SpecConstant::Function { .. } =>
                        (push_v(s, Value::Func(FnRef { prog, index: idx, sync: false })), ActionView::Continue),
                    _ => (VmView { waiting: true, ..s }, ActionView::Constant { prog, index: idx }),
                }
            } else {
                abort(s, AbortReason::BadReference)
            }
        },
        Opcode::OpTrue => (push_v(s, Value::Bool(true)), ActionView::Continue),
        Opcode::OpFalse => (push_v(s, Value::Bool(false)), ActionView::Continue),
        Opcode::OpNull => (push_v(s, Value::Null), ActionView::Continue),
        Opcode::OpAdd | Opcode::OpSub | Opcode::OpMul | Opcode::OpDiv | Opcode::OpModulo => binary_spec(s, op, Value::Null),
        Opcode::OpEqual | Opcode::OpNotEqual | Opcode::OpGT | Opcode::OpLT | Opcode::OpGTE | Opcode::OpLTE =>
            binary_spec(s, op, Value::Bool(false)),
        Opcode::OpNot => {
            let (t, v) = pop_v(s);
            let r = match v {
                Value::Bool(b) => !b,
                Value::Null => true,
                _ => false,
            };
            (push_v(t, Value::Bool(r)), ActionView::Continue)
        },
        Opcode::OpPop => (pop_v(s).0, ActionView::Continue),
        Opcode::OpSetGlobal(g) => {
            if s.stack.len() > 0 {
                (VmView { globals: global_set(s.globals, g, s.stack.last()), ..s }, ActionView::Continue)
            } else {
                (s, ActionView::Continue)
            }
        },
        Opcode::OpGetGlobal(g) => (push_v(s, global_get(s.globals, g)), ActionView::Continue),
        Opcode::OpSetLocal(idx) => {
            if s.stack.len() > 0 {
                let slot = s.frame.base + idx;
                if slot < s.stack.len() {
                    (VmView { stack: s.stack.update(slot, s.stack.last()), ..s }, ActionView::Continue)
                } else {
                    abort(s, AbortReason::BadReference)
                }
            } else {
                (s, ActionView::Continue)
            }
        },
        Opcode::OpGetLocal(idx) => {
            let slot = s.frame.base + idx;
            if slot < s.stack.len() {
                (push_v(s, s.stack[slot]), ActionView::Continue)
            } else {
                abort(s, AbortReason::BadReference)
            }
        },
        Opcode::OpJump(pos) => {
            if pos > code.len() {
                abort(s, AbortReason::JumpOutOfBounds)
            } else {
                (VmView { frame: Frame { ip: pos, ..s.frame }, ..s }, ActionView::Continue)
            }
        },
        Opcode::OpJumpIfFalse(pos) => {
            if pos > code.len() {
                abort(s, AbortReason::JumpOutOfBounds)
            } else {
                let (t, v) = pop_v(s);
                if v == Value::Bool(false) || v == Value::Null {
                    (VmView { frame: Frame { ip: pos, ..t.frame }, ..t }, ActionView::Continue)
                } else {
                    (t, ActionView::Continue)
                }
            }
        },
        Opcode::OpCall(n) => {
            let (t, a) = call_spec(s, progs, n);
            (VmView { count: 0, ..t }, a)
        },
        Opcode::OpReturnValue => return_spec(s),
        Opcode::OpGetUpvalue(idx) => match env_cell(s, idx) {
            Some(c) => if c < s.cells.len() {
                match s.cells[c as int] {
                    Cell::Open(i) => if i < s.stack.len() {
                        (push_v(s, s.stack[i as int]), ActionView::Continue)
                    } else {
                        abort(s, AbortReason::BadReference)
                    },
                    Cell::Closed(v) => (push_v(s, v), ActionView::Continue),
                }
            } else {
                abort(s, AbortReason::BadReference)
            },
            None => abort(s, AbortReason::BadReference),
        },
        Opcode::OpSetUpvalue(idx) => {
            if s.stack.len() > 0 {
                let v = s.stack.last();
                match env_cell(s, idx) {
                    Some(c) => if c < s.cells.len() {
                        match s.cells[c as int] {
                            Cell::Open(i) => if i < s.stack.len() {
                                (VmView { stack: s.stack.update(i as int, v), ..s }, ActionView::Continue)
                            } else {
                                abort(s, AbortReason::BadReference)
                            },
                            Cell::Closed(_) =>
                                (VmView { cells: s.cells.update(c as int, Cell::Closed(v)), ..s }, ActionView::Continue),
                        }
                    } else {
                        abort(s, AbortReason::BadReference)
                    },
                    None => abort(s, AbortReason::BadReference),
                }
            } else {
                (s, ActionView::Continue)
            }
        },
        Opcode::OpClosure(idx, n) => exec_spec_closure(s, progs, code, prog, idx, n),
        Opcode::OpShellExecute => {
            if s.stack.len() > 0 {
                let (t, v) = pop_v(s);
                (VmView { waiting: true, ..t }, ActionView::Shell { command: v })
            } else {
                (s, ActionView::Continue)
            }
        },
        Opcode::OpArray(n) => {
            let start = if s.stack.len() >= n { s.stack.len() - n } else { 0 };
            (
                VmView { stack: s.stack.subrange(0, start), waiting: true, ..s },
                ActionView::MakeArray { items: s.stack.subrange(start, s.stack.len() as int) },
            )
        },
        Opcode::OpObject(n) => {
            if 2 * n > usize::MAX {
                abort(s, AbortReason::StackUnderflow)
            } else {
                let start = if s.stack.len() >= 2 * n { s.stack.len() - 2 * n } else { 0 };
                (
                    VmView { stack: s.stack.subrange(0, start), waiting: true, ..s },
                    ActionView::MakeObject { items: s.stack.subrange(start, s.stack.len() as int) },
                )
            }
        },
        Opcode::OpIndex => {
            if s.stack.len() < 2 {
                (push_v(s, Value::Null), ActionView::Continue)
            } else {
                let n = s.stack.len();
                (
                    VmView { stack: s.stack.subrange(0, n - 2), waiting: true, ..s },
                    ActionView::Index { collection: s.stack[n - 2], index: s.stack[n - 1] },
                )
            }
        },
        Opcode::OpSetIndex => {
            if s.stack.len() < 3 {
                (push_v(s, Value::Null), ActionView::Continue)
            } else {
                let n = s.stack.len();
                (
                    VmView { stack: s.stack.subrange(0, n - 3), waiting: true, ..s },
                    ActionView::SetIndex { collection: s.stack[n - 3], index: s.stack[n - 2], value: s.stack[n - 1] },
                )
            }
        },
        Opcode::OpMethodCall(n) => {
            if s.stack.len() < n {
                abort(s, AbortReason::StackUnderflow)
            } else {
                let from = s.stack.len() - n;
                let args = s.stack.subrange(from, s.stack.len() as int);
                let (t1, method) = pop_v(VmView { stack: s.stack.subrange(0, from), count: 0, ..s });
                let (t2, receiver) = pop_v(t1);
                if method matches Value::Data(DataKind::String, _) {
                    (VmView { waiting: true, ..t2 }, ActionView::MethodCall { receiver, method, args })
                } else {
                    (push_v(t2, Value::Null), ActionView::Continue)
                }
            }
        },
        Opcode::OpImport => {
            if s.stack.len() > 0 {
                let (t, v) = pop_v(s);
                (VmView { waiting: true, ..t }, ActionView::Import { path: v })
            } else {
                (s, ActionView::Continue)
            }
        },
        Opcode::OpTryStart(addr) => (
            VmView { handlers: entered(s.handlers, addr, s.frames.len() as usize, s.stack.len() as usize), ..s },
            ActionView::Continue,
        ),
        Opcode::OpTryEnd => (VmView { handlers: left(s.handlers), ..s }, ActionView::Continue),
        Opcode::OpThrow => {
            let (t, v) = pop_v(s);
            raise_spec(t, v)
        },
        Opcode::OpAwait => {
            let (t, v) = pop_v(s);
            match v {
                Value::Future(id) => if id < t.futures.len() {
                    let fut = t.futures[id as int];
                    if fut.start + fut.len <= t.future_args.len() {
                        let f = FnRef { sync: true, ..fut.func };
                        let args = t.future_args.subrange(fut.start as int, fut.start + fut.len);
                        let (t1, callee) = match fut.env {
                            Some(cid) => if cid < t.closures.len() {
                                let c = t.closures[cid as int];
                                (VmView { closures: t.closures.push(ClosureInfo { func: f, ..c }), ..t },
                                    Value::Closure(t.closures.len() as usize))
                            } else {
                                (t, Value::Func(f))
                            },
                            None => (t, Value::Func(f)),
                        };
                        let t2 = VmView { stack: t1.stack.push(callee) + args, ..t1 };
                        let (t3, a) = call_spec(t2, progs, fut.len);
                        (VmView { count: 0, ..t3 }, a)
                    } else {
                        abort(t, AbortReason::BadReference)
                    }
                } else {
                    abort(t, AbortReason::BadReference)
                },
                other => (push_v(t, other), ActionView::Continue),
            }
        },
    }
}

/// One step of the machine: at the end of a frame's code, back to its
/// caller (pushing null) or the end of the program; otherwise the limit
/// checks, then the next instruction.
pub open spec fn step_spec(s: VmView, progs: Seq<ProgView>) -> (VmView, ActionView) {
    if s.halted {
        (s, ActionView::Halt)
    } else {
        match frame_code(progs, s.frame.code) {
            None => abort(s, AbortReason::BadReference),
            Some(code) => {
                if s.frame.ip >= code.len() {
                    if s.frames.len() > 0 {
                        (
                            VmView {
                                frame: s.frames.last(),
                                frames: s.frames.drop_last(),
                                stack: s.stack.push(Value::Null),
                                count: 0,
                                ..s
                            },
                            ActionView::Continue,
                        )
                    } else {
                        (VmView { halted: true, ..s }, ActionView::Halt)
                    }
                } else if s.count >= MAX_INSTRUCTIONS {
                    abort(s, AbortReason::InstructionLimit)
                } else if s.stack.len() > MAX_STACK_SIZE {
                    abort(s, AbortReason::StackOverflow)
                } else {
                    let op = code[s.frame.ip as int];
                    let t = VmView { count: (s.count + 1) as usize, frame: Frame { ip: (s.frame.ip + 1) as usize, ..s.frame }, ..s };
                    exec_spec(t, progs, code, op)
                }
            },
        }
    }
}

/// The host's answer: the value is pushed, or the error raised.
pub open spec fn resume_spec(s: VmView, e: VmEvent) -> (VmView, ActionView) {
    let r = VmView { waiting: false, ..s };
    match e {
        VmEvent::Push(v) => (push_v(r, v), ActionView::Continue),
        VmEvent::Raise(err) => raise_spec(r, err),
    }
}

// ── proofs ───────────────────────────────────────────────────────────────

proof fn lemma_global_pos_none(gs: Seq<(usize, Value)>, g: usize)
    requires
        forall|j: int| 0 <= j < gs.len() ==> #[trigger] gs[j].0 != g,
    ensures
        global_pos(gs, g) is None,
    decreases gs.len(),
{
    if gs.len() > 0 {
        lemma_global_pos_none(gs.drop_last(), g);
    }
}

proof fn lemma_global_pos_first(gs: Seq<(usize, Value)>, g: usize, i: int)
    requires
        0 <= i < gs.len(),
        gs[i].0 == g,
        forall|j: int| 0 <= j < i ==> #[trigger] gs[j].0 != g,
    ensures
        global_pos(gs, g) == Some(i),
    decreases gs.len(),
{
    if i < gs.len() - 1 {
        lemma_global_pos_first(gs.drop_last(), g, i);
    } else {
        lemma_global_pos_none(gs.drop_last(), g);
    }
}

pub open spec fn opens_at(s: VmView, j: int, slot: usize) -> bool {
    s.open[j] < s.cells.len() && s.cells[s.open[j] as int] == Cell::Open(slot)
}

proof fn lemma_open_pos_none(s: VmView, slot: usize)
    requires
        forall|j: int| 0 <= j < s.open.len() ==> !#[trigger] opens_at(s, j, slot),
    ensures
        open_pos(s, slot) is None,
    decreases s.open.len(),
{
    if s.open.len() > 0 {
        let t = VmView { open: s.open.drop_last(), ..s };
        assert forall|j: int| 0 <= j < t.open.len() implies !#[trigger] opens_at(t, j, slot) by {
            assert(!opens_at(s, j, slot));
        }
        lemma_open_pos_none(t, slot);
        assert(!opens_at(s, s.open.len() - 1, slot));
    }
}

proof fn lemma_open_pos_first(s: VmView, slot: usize, i: int)
    requires
        0 <= i < s.open.len(),
        opens_at(s, i, slot),
        forall|j: int| 0 <= j < i ==> !#[trigger] opens_at(s, j, slot),
    ensures
        open_pos(s, slot) == Some(i),
    decreases s.open.len(),
{
    let t = VmView { open: s.open.drop_last(), ..s };
    if i < s.open.len() - 1 {
        assert(opens_at(t, i, slot));
        assert forall|j: int| 0 <= j < i implies !#[trigger] opens_at(t, j, slot) by {
            assert(!opens_at(s, j, slot));
        }
        lemma_open_pos_first(t, slot, i);
    } else {
        assert forall|j: int| 0 <= j < t.open.len() implies !#[trigger] opens_at(t, j, slot) by {
            assert(!opens_at(s, j, slot));
        }
        lemma_open_pos_none(t, slot);
    }
}

proof fn lemma_descriptors_stop(s: VmView, code: Seq<Opcode>, k: nat, n: nat)
    requires
        k <= n,
        descriptors_spec(s, code, k).1 is None,
    ensures
        descriptors_spec(s, code, n) == descriptors_spec(s, code, k),
    decreases n,
{
    if n > k {
        lemma_descriptors_stop(s, code, k, (n - 1) as nat);
    }
}

proof fn lemma_close_stop(s: VmView, last_slot: usize, k: nat)
    requires
        k <= s.open.len(),
        close_spec(VmView { open: s.open.subrange(0, k as int), ..s }, last_slot) is None,
    ensures
        close_spec(s, last_slot) is None,
    decreases s.open.len() - k,
{
    if k < s.open.len() {
        let p = VmView { open: s.open.subrange(0, (k + 1) as int), ..s };
        assert(p.open.drop_last() =~= s.open.subrange(0, k as int));
        assert((VmView { open: p.open.drop_last(), ..p }) == (VmView { open: s.open.subrange(0, k as int), ..s }));
        lemma_close_stop(s, last_slot, k + 1);
    } else {
        assert(s.open.subrange(0, k as int) =~= s.open);
        assert((VmView { open: s.open.subrange(0, k as int), ..s }) == s);
    }
}

// ── exec ─────────────────────────────────────────────────────────────────

fn global_pos_exec(gs: &Vec<(usize, Value)>, g: usize) -> (r: Option<usize>)
    ensures
        r matches Some(i) ==> global_pos(gs@, g) == Some(i as int) && i < gs@.len(),
        r is None ==> global_pos(gs@, g) is None,
{
    let mut i: usize = 0;
    while i < gs.len()
        invariant
            i <= gs@.len(),
            forall|j: int| 0 <= j < i ==> #[trigger] gs@[j].0 != g,
        decreases gs@.len() - i,
    {
        if gs[i].0 == g {
            proof {
                lemma_global_pos_first(gs@, g, i as int);
            }
            return Some(i);
        }
        i = i + 1;
    }
    proof {
        lemma_global_pos_none(gs@, g);
    }
    None
}

/// The code of a frame, where it exists.
fn code_of(progs: &Vec<Program>, c: CodeRef) -> (r: Option<&Vec<Opcode>>)
    ensures
        r matches Some(v) ==> frame_code(progs_view(progs@), c) == Some(v@),
        r is None ==> frame_code(progs_view(progs@), c) is None,
{
    match c {
        CodeRef::Main(p) => {
            if p < progs.len() {
                Some(&progs[p].code)
            } else {
                None
            }
        },
        CodeRef::Func(f) => {
            if f.prog < progs.len() && f.index < progs[f.prog].constants.len() {
                match &progs[f.prog].constants[f.index] {
                    Constant::Function(cf) => Some(&cf.instructions),
                    _ => None,
                }
            } else {
                None
            }
        },
    }
}

/// The number of locals of function `f` and whether it runs async.
fn fn_info_exec(progs: &Vec<Program>, f: FnRef) -> (r: Option<(usize, bool)>)
    ensures
        r matches Some((n, a)) ==> fn_info(progs_view(progs@), f) matches Some(info) && info.1 == n && info.2 == a,
        r is None ==> fn_info(progs_view(progs@), f) is None,
{
    if f.prog < progs.len() && f.index < progs[f.prog].constants.len() {
        match &progs[f.prog].constants[f.index] {
            Constant::Function(cf) => Some((cf.num_locals, cf.is_async && !f.sync)),
            _ => None,
        }
    } else {
        None
    }
}

/// Whether constant `idx` of program `prog` exists, and is a function.
fn constant_kind(progs: &Vec<Program>, prog: usize, idx: usize) -> (r: Option<bool>)
    ensures
        r is None <==> !(prog < progs@.len() && idx < progs_view(progs@)[prog as int].constants.len()),
        r matches Some(is_fn) ==> (is_fn <==> progs_view(progs@)[prog as int].constants[idx as int] is Function),
{
    if prog < progs.len() && idx < progs[prog].constants.len() {
        match &progs[prog].constants[idx] {
            Constant::Function(_) => Some(true),
            _ => Some(false),
        }
    } else {
        None
    }
}

impl VmState {
    /// The machine is running (not waiting for the host).
    pub open spec fn running(&self) -> bool {
        !self.waiting
    }

    /// A machine about to run the top level of program `prog`.
    pub fn new(prog: usize) -> (s: Self)
        ensures
            s@ == fresh_vm(prog, seq![], seq![], seq![], seq![], seq![], seq![]),
    {
        VmState {
            stack: Vec::new(),
            globals: Vec::new(),
            frame: Frame { code: CodeRef::Main(prog), ip: 0, base: 0, env: None },
            frames: Vec::new(),
            cells: Vec::new(),
            open: Vec::new(),
            closures: Vec::new(),
            env_cells: Vec::new(),
            futures: Vec::new(),
            future_args: Vec::new(),
            handlers: TryStack::new(),
            count: 0,
            waiting: false,
            halted: false,
        }
    }

    /// Sets global `g` to `v`.
    pub fn set_global(&mut self, g: usize, v: Value)
        ensures
            final(self)@ == (VmView { globals: global_set(old(self)@.globals, g, v), ..old(self)@ }),
    {
        match global_pos_exec(&self.globals, g) {
            Some(i) => self.globals.set(i, (g, v)),
            None => self.globals.push((g, v)),
        }
    }

    /// The value of global `g`.
    pub fn get_global(&self, g: usize) -> (v: Value)
        ensures
            v == global_get(self@.globals, g),
    {
        match global_pos_exec(&self.globals, g) {
            Some(i) => self.globals[i].1,
            None => Value::Null,
        }
    }

    fn push(&mut self, v: Value)
        ensures
            final(self)@ == push_v(old(self)@, v),
    {
        self.stack.push(v);
    }

    fn pop_or_null(&mut self) -> (v: Value)
        ensures
            (final(self)@, v) == pop_v(old(self)@),
    {
        match self.stack.pop() {
            Some(v) => v,
            None => Value::Null,
        }
    }

    fn env_cell(&self, idx: usize) -> (r: Option<usize>)
        ensures
            r == env_cell(self@, idx),
    {
        match self.frame.env {
            Some(cid) => {
                if cid < self.closures.len() && idx < self.closures[cid].len
                    && self.closures[cid].start < self.env_cells.len()
                    && idx < self.env_cells.len() - self.closures[cid].start {
                    Some(self.env_cells[self.closures[cid].start + idx])
                } else {
                    None
                }
            },
            None => None,
        }
    }

    /// The cell for stack slot `slot`: an open one that points at it, or a
    /// new open cell.
    pub fn capture(&mut self, slot: usize) -> (c: usize)
        ensures
            (final(self)@, c) == capture_spec(old(self)@, slot),
    {
        let mut i: usize = 0;
        while i < self.open.len()
            invariant
                i <= self@.open.len(),
                forall|j: int| 0 <= j < i ==> !#[trigger] opens_at(self@, j, slot),
            decreases self@.open.len() - i,
        {
            let c = self.open[i];
            if c < self.cells.len() && self.cells[c] == Cell::Open(slot) {
                proof {
                    lemma_open_pos_first(self@, slot, i as int);
                }
                return c;
            }
            assert(!opens_at(self@, i as int, slot));
            i = i + 1;
        }
        proof {
            lemma_open_pos_none(self@, slot);
        }
        let c = self.cells.len();
        self.cells.push(Cell::Open(slot));
        self.open.push(c);
        c
    }

    /// The cells and open list after closing the captured variables of slot
    /// `last_slot` and above, or `None` where one points past the stack.
    fn closed_cells(&self, last_slot: usize) -> (r: Option<(Vec<Cell>, Vec<usize>)>)
        ensures
            r matches Some((cs, os)) ==> close_spec(self@, last_slot) == Some(VmView { cells: cs@, open: os@, ..self@ }),
            r is None ==> close_spec(self@, last_slot) is None,
    {
        let mut cells = self.cells.clone();
        assert(cells@ =~= self.cells@);
        let mut kept: Vec<usize> = Vec::new();
        let mut i: usize = 0;
        assert(self@.open.subrange(0, 0) =~= Seq::<usize>::empty());
        assert((VmView { open: self@.open.subrange(0, 0), ..self@ }) == (VmView { cells: cells@, open: kept@, ..self@ }));
        while i < self.open.len()
            invariant
                i <= self@.open.len(),
                close_spec(VmView { open: self@.open.subrange(0, i as int), ..self@ }, last_slot)
                    == Some(VmView { cells: cells@, open: kept@, ..self@ }),
            decreases self@.open.len() - i,
        {
            let ghost p = VmView { open: self@.open.subrange(0, i + 1), ..self@ };
            proof {
                assert(p.open.drop_last() =~= self@.open.subrange(0, i as int));
                assert((VmView { open: p.open.drop_last(), ..p }) == (VmView { open: self@.open.subrange(0, i as int), ..self@ }));
            }
            let c = self.open[i];
            let mut handled = false;
            if c < cells.len() {
                match cells[c] {
                    Cell::Open(slot) => {
                        if slot >= last_slot {
                            if slot < self.stack.len() {
                                cells.set(c, Cell::Closed(self.stack[slot]));
                                handled = true;
                            } else {
                                proof {
                                    lemma_close_stop(self@, last_slot, (i + 1) as nat);
                                }
                                return None;
                            }
                        }
                    },
                    Cell::Closed(_) => {},
                }
            }
            if !handled {
                kept.push(c);
            }
            i = i + 1;
        }
        assert(self@.open.subrange(0, self@.open.len() as int) =~= self@.open);
        assert((VmView { open: self@.open.subrange(0, self@.open.len() as int), ..self@ }) == self@);
        Some((cells, kept))
    }

    /// Closes the captured variables of slot `last_slot` and above; `false`
    /// (nothing changed) where one points past the stack.
    pub fn close_upvalues(&mut self, last_slot: usize) -> (ok: bool)
        ensures
            ok == (close_spec(old(self)@, last_slot) is Some),
            ok ==> close_spec(old(self)@, last_slot) == Some(final(self)@),
            !ok ==> final(self)@ == old(self)@,
            final(self)@ == (VmView { cells: final(self)@.cells, open: final(self)@.open, ..old(self)@ }),
    {
        match self.closed_cells(last_slot) {
            Some((cs, os)) => {
                self.cells = cs;
                self.open = os;
                true
            },
            None => false,
        }
    }
}

impl VmState {
    fn enter(&mut self, f: FnRef, env: Option<usize>, num_locals: usize, arg_count: usize)
        requires
            arg_count <= old(self)@.stack.len(),
        ensures
            final(self)@ == enter_spec(old(self)@, f, env, num_locals, arg_count),
    {
        let base = self.stack.len() - arg_count;
        let extra: usize = if num_locals > arg_count { num_locals - arg_count } else { 0 };
        self.frames.push(self.frame);
        self.frame = Frame { code: CodeRef::Func(f), ip: 0, base, env };
        let ghost st0 = self.stack@;
        let mut nulls: Vec<Value> = Vec::new();
        let mut k: usize = 0;
        while k < extra
            invariant
                k <= extra,
                nulls@ == Seq::new(k as nat, |i: int| Value::Null),
            decreases extra - k,
        {
            nulls.push(Value::Null);
            k = k + 1;
            assert(nulls@ =~= Seq::new(k as nat, |i: int| Value::Null));
        }
        self.stack.append(&mut nulls);
        self.count = 0;
        let ghost ex: nat = if num_locals > arg_count { (num_locals - arg_count) as nat } else { 0 };
        assert(extra as nat == ex);
        assert(Seq::new(extra as nat, |i: int| Value::Null) =~= Seq::new(ex, |i: int| Value::Null));
        let ghost e = enter_spec(old(self)@, f, env, num_locals, arg_count);
        assert(self@.stack =~= e.stack);
        assert(self@.frames =~= e.frames);
        assert(self@.frame == e.frame);
        assert(self@.count == e.count);
        assert(self@ == e);
    }

    /// Calls the value below the `arg_count` arguments on the stack.
    pub fn call(&mut self, progs: &Vec<Program>, arg_count: usize) -> (a: VmAction)
        ensures
            (final(self)@, a@) == call_spec(old(self)@, progs_view(progs@), arg_count),
    {
        if self.stack.len() < 1 || self.stack.len() - 1 < arg_count {
            return VmAction::Abort { reason: AbortReason::StackUnderflow };
        }
        let at = self.stack.len() - arg_count - 1;
        let from = self.stack.len() - arg_count;
        let callee = self.stack[at];
        let target: Option<(FnRef, Option<usize>)> = match callee {
            Value::Func(f) => Some((f, None)),
            Value::Closure(cid) => if cid < self.closures.len() { Some((self.closures[cid].func, Some(cid))) } else { None },
            _ => None,
        };
        match target {
            Some((f, env)) => match fn_info_exec(progs, f) {
                Some((num_locals, is_async)) => {
                    if is_async {
                        let id = self.futures.len();
                        let start = self.future_args.len();
                        let ghost st0 = self.stack@;
                        let mut args = self.stack.split_off(from);
                        self.future_args.append(&mut args);
                        self.futures.push(FutureInfo { func: f, env, start, len: arg_count });
                        self.stack.truncate(at);
                        self.stack.push(Value::Future(id));
                        assert(self.stack@ =~= st0.subrange(0, at as int).push(Value::Future(id)));
                        VmAction::Continue
                    } else {
                        self.enter(f, env, num_locals, arg_count);
                        VmAction::Continue
                    }
                },
                None => VmAction::Abort { reason: AbortReason::BadReference },
            },
            None => match callee {
                Value::Native(n) => {
                    let ghost st0 = self.stack@;
                    let args = self.stack.split_off(from);
                    self.stack.truncate(at);
                    assert(self.stack@ =~= st0.subrange(0, at as int));
                    self.waiting = true;
                    VmAction::CallNative { native: n, args }
                },
                Value::Closure(_) => VmAction::Abort { reason: AbortReason::BadReference },
                _ => {
                    let ghost st0 = self.stack@;
                    self.stack.truncate(at);
                    self.stack.push(Value::Null);
                    assert(self.stack@ =~= st0.subrange(0, at as int).push(Value::Null));
                    VmAction::Continue
                },
            },
        }
    }

    /// Raises `err` (see `raise_spec`).
    pub fn raise(&mut self, err: Value) -> (a: VmAction)
        ensures
            (final(self)@, a@) == raise_spec(old(self)@, err),
    {
        match self.handlers.route_error() {
            ErrorRoute::Catch { stack_depth, catch_ip } => {
                if stack_depth <= self.stack.len() {
                    self.stack.truncate(stack_depth);
                }
                self.stack.push(err);
                self.frame.ip = catch_ip;
                VmAction::Continue
            },
            ErrorRoute::Uncaught => {
                self.halted = true;
                VmAction::Uncaught { error: err }
            },
        }
    }

    fn return_value(&mut self) -> (a: VmAction)
        ensures
            (final(self)@, a@) == return_spec(old(self)@),
    {
        let res = self.pop_or_null();
        let base = self.frame.base;
        if !self.close_upvalues(base) {
            return VmAction::Abort { reason: AbortReason::BadReference };
        }
        let ghost u = self@;
        assert(u.frame.base == base);
        let keep = if base > 0 { base - 1 } else { 0 };
        if keep <= self.stack.len() {
            self.stack.truncate(keep);
            assert(self.stack@ =~= u.stack.subrange(0, keep as int));
        }
        self.stack.push(res);
        let ghost w = self@;
        assert(w == (VmView { stack: (if keep <= u.stack.len() { u.stack.subrange(0, keep as int) } else { u.stack }).push(res), ..u }));
        match self.frames.pop() {
            Some(f) => {
                self.frame = f;
                self.count = 0;
                assert(self@.frames =~= w.frames.drop_last());
                assert(w.frames.len() > 0);
                assert(self@ == (VmView { frame: w.frames.last(), frames: w.frames.drop_last(), count: 0, ..w }));
                VmAction::Continue
            },
            None => {
                self.halted = true;
                VmAction::Halt
            },
        }
    }

    fn binary(&mut self, op: Opcode, fallback: Value) -> (a: VmAction)
        ensures
            (final(self)@, a@) == binary_spec(old(self)@, op, fallback),
    {
        if self.stack.len() < 2 {
            self.stack.push(fallback);
            VmAction::Continue
        } else {
            let right = self.stack.pop().unwrap();
            let left = self.stack.pop().unwrap();
            self.waiting = true;
            assert(self.stack@ =~= old(self)@.stack.subrange(0, old(self)@.stack.len() - 2));
            VmAction::Binary { op, left, right }
        }
    }

    fn descriptors(&mut self, code: &Vec<Opcode>, n: usize) -> (r: Option<Vec<usize>>)
        ensures
            r matches Some(v) ==> descriptors_spec(old(self)@, code@, n as nat) == (final(self)@, Some(v@)),
            r is None ==> descriptors_spec(old(self)@, code@, n as nat) == (final(self)@, None::<Seq<usize>>),
    {
        let ghost s0 = self@;
        let mut got: Vec<usize> = Vec::new();
        let mut k: usize = 0;
        assert(descriptors_spec(s0, code@, 0) == (self@, Some(got@)));
        while k < n
            invariant
                k <= n,
                s0 == old(self)@,
                descriptors_spec(s0, code@, k as nat) == (self@, Some(got@)),
            decreases n - k,
        {
            if self.frame.ip >= code.len() {
                proof {
                    lemma_descriptors_stop(s0, code@, (k + 1) as nat, n as nat);
                }
                return None;
            }
            let d = code[self.frame.ip];
            self.frame.ip = self.frame.ip + 1;
            match d {
                Opcode::OpGetLocal(idx) => {
                    if self.frame.base > usize::MAX - idx {
                        proof {
                            lemma_descriptors_stop(s0, code@, (k + 1) as nat, n as nat);
                        }
                        return None;
                    }
                    let c = self.capture(self.frame.base + idx);
                    got.push(c);
                },
                Opcode::OpGetUpvalue(idx) => {
                    match self.env_cell(idx) {
                        Some(c) => got.push(c),
                        None => {
                            proof {
                                lemma_descriptors_stop(s0, code@, (k + 1) as nat, n as nat);
                            }
                            return None;
                        },
                    }
                },
                _ => {
                    proof {
                        lemma_descriptors_stop(s0, code@, (k + 1) as nat, n as nat);
                    }
                    return None;
                },
            }
            k = k + 1;
        }
        Some(got)
    }
}

impl VmState {
    fn set_local(&mut self, idx: usize) -> (a: VmAction)
        ensures
            (final(self)@, a@) == exec_spec_local_set(old(self)@, idx),
    {
        if self.stack.len() > 0 {
            let v = self.stack[self.stack.len() - 1];
            if self.frame.base <= usize::MAX - idx && self.frame.base + idx < self.stack.len() {
                self.stack.set(self.frame.base + idx, v);
                VmAction::Continue
            } else {
                VmAction::Abort { reason: AbortReason::BadReference }
            }
        } else {
            VmAction::Continue
        }
    }

    fn get_upvalue(&mut self, idx: usize) -> (a: VmAction)
        ensures
            (final(self)@, a@) == exec_spec_upvalue_get(old(self)@, idx),
    {
        match self.env_cell(idx) {
            Some(c) => {
                if c < self.cells.len() {
                    match self.cells[c] {
                        Cell::Open(i) => {
                            if i < self.stack.len() {
                                let v = self.stack[i];
                                self.stack.push(v);
                                VmAction::Continue
                            } else {
                                VmAction::Abort { reason: AbortReason::BadReference }
                            }
                        },
                        Cell::Closed(v) => {
                            self.stack.push(v);
                            VmAction::Continue
                        },
                    }
                } else {
                    VmAction::Abort { reason: AbortReason::BadReference }
                }
            },
            None => VmAction::Abort { reason: AbortReason::BadReference },
        }
    }

    fn set_upvalue(&mut self, idx: usize) -> (a: VmAction)
        ensures
            (final(self)@, a@) == exec_spec_upvalue_set(old(self)@, idx),
    {
        if self.stack.len() == 0 {
            return VmAction::Continue;
        }
        let v = self.stack[self.stack.len() - 1];
        match self.env_cell(idx) {
            Some(c) => {
                if c < self.cells.len() {
                    match self.cells[c] {
                        Cell::Open(i) => {
                            if i < self.stack.len() {
                                self.stack.set(i, v);
                                VmAction::Continue
                            } else {
                                VmAction::Abort { reason: AbortReason::BadReference }
                            }
                        },
                        Cell::Closed(_) => {
                            self.cells.set(c, Cell::Closed(v));
                            VmAction::Continue
                        },
                    }
                } else {
                    VmAction::Abort { reason: AbortReason::BadReference }
                }
            },
            None => VmAction::Abort { reason: AbortReason::BadReference },
        }
    }

    fn make_closure(&mut self, progs: &Vec<Program>, code: &Vec<Opcode>, prog: usize, idx: usize, n: usize) -> (a: VmAction)
        ensures
            (final(self)@, a@) == exec_spec_closure(old(self)@, progs_view(progs@), code@, prog, idx, n),
    {
        match constant_kind(progs, prog, idx) {
            None => VmAction::Abort { reason: AbortReason::BadReference },
            Some(false) => VmAction::Continue,
            Some(true) => match self.descriptors(code, n) {
                None => VmAction::Abort { reason: AbortReason::BadReference },
                Some(got) => {
                    let cid = self.closures.len();
                    let start = self.env_cells.len();
                    let len = got.len();
                    let mut got = got;
                    self.env_cells.append(&mut got);
                    self.closures.push(ClosureInfo { func: FnRef { prog, index: idx, sync: false }, start, len });
                    self.stack.push(Value::Closure(cid));
                    VmAction::Continue
                },
            },
        }
    }

    fn await_value(&mut self, progs: &Vec<Program>) -> (a: VmAction)
        ensures
            (final(self)@, a@) == exec_spec_await(old(self)@, progs_view(progs@)),
    {
        let v = self.pop_or_null();
        match v {
            Value::Future(id) => {
                if id >= self.futures.len() {
                    return VmAction::Abort { reason: AbortReason::BadReference };
                }
                let fut = self.futures[id];
                if fut.start > self.future_args.len() || fut.len > self.future_args.len() - fut.start {
                    return VmAction::Abort { reason: AbortReason::BadReference };
                }
                let f = FnRef { sync: true, ..fut.func };
                let callee = match fut.env {
                    Some(cid) => {
                        if cid < self.closures.len() {
                            let c = self.closures[cid];
                            let new_id = self.closures.len();
                            self.closures.push(ClosureInfo { func: f, ..c });
                            Value::Closure(new_id)
                        } else {
                            Value::Func(f)
                        }
                    },
                    None => Value::Func(f),
                };
                let ghost st0 = self.stack@;
                self.stack.push(callee);
                let end = fut.start + fut.len;
                let mut j: usize = fut.start;
                let mut args: Vec<Value> = Vec::new();
                while j < end
                    invariant
                        fut.start <= j <= end,
                        end == fut.start + fut.len,
                        end <= self.future_args@.len(),
                        args@ == self.future_args@.subrange(fut.start as int, j as int),
                    decreases end - j,
                {
                    args.push(self.future_args[j]);
                    j = j + 1;
                    assert(args@ =~= self.future_args@.subrange(fut.start as int, j as int));
                }
                self.stack.append(&mut args);
                let a = self.call(progs, fut.len);
                self.count = 0;
                a
            },
            other => {
                self.stack.push(other);
                VmAction::Continue
            },
        }
    }
}

pub open spec fn exec_spec_local_set(s: VmView, idx: usize) -> (VmView, ActionView) {
    exec_spec(s, seq![], seq![], Opcode::OpSetLocal(idx))
}

pub open spec fn exec_spec_upvalue_get(s: VmView, idx: usize) -> (VmView, ActionView) {
    exec_spec(s, seq![], seq![], Opcode::OpGetUpvalue(idx))
}

pub open spec fn exec_spec_upvalue_set(s: VmView, idx: usize) -> (VmView, ActionView) {
    exec_spec(s, seq![], seq![], Opcode::OpSetUpvalue(idx))
}

pub open spec fn exec_spec_closure(s: VmView, progs: Seq<ProgView>, code: Seq<Opcode>, prog: usize, idx: usize, n: usize) -> (VmView, ActionView) {
    if prog < progs.len() && idx < progs[prog as int].constants.len() {
        match progs[prog as int].constants[idx as int] {
            SpecConstant::Function { .. } => match descriptors_spec(s, code, n as nat) {
                (t, None) => abort(t, AbortReason::BadReference),
                (t, Some(got)) => {
                    let info = ClosureInfo {
                        func: FnRef { prog, index: idx, sync: false },
                        start: t.env_cells.len() as usize,
                        len: got.len() as usize,
                    };
                    (
                        push_v(
                            VmView { env_cells: t.env_cells + got, closures: t.closures.push(info), ..t },
                            Value::Closure(t.closures.len() as usize),
                        ),
                        ActionView::Continue,
                    )
                },
            },
            _ => (s, ActionView::Continue),
        }
    } else {
        abort(s, AbortReason::BadReference)
    }
}

pub open spec fn exec_spec_await(s: VmView, progs: Seq<ProgView>) -> (VmView, ActionView) {
    exec_spec(s, progs, seq![], Opcode::OpAwait)
}

impl VmState {
    #[verifier::spinoff_prover]
    #[verifier::rlimit(80)]
    fn exec_op(&mut self, progs: &Vec<Program>, code: &Vec<Opcode>, op: Opcode) -> (a: VmAction)
        ensures
            (final(self)@, a@) == exec_spec(old(self)@, progs_view(progs@), code@, op),
    {
        let prog = match self.frame.code {
            CodeRef::Main(p) => p,
            CodeRef::Func(f) => f.prog,
        };
        match op {
            Opcode::OpConstant(idx) => self.load_constant(progs, code, idx),
            Opcode::OpTrue => self.op_true(progs, code),
            Opcode::OpFalse => self.op_false(progs, code),
            Opcode::OpNull => self.op_null(progs, code),
            Opcode::OpAdd | Opcode::OpSub | Opcode::OpMul | Opcode::OpDiv | Opcode::OpModulo => self.binary(op, Value::Null),
            Opcode::OpEqual | Opcode::OpNotEqual | Opcode::OpGT | Opcode::OpLT | Opcode::OpGTE | Opcode::OpLTE =>
                self.binary(op, Value::Bool(false)),
            Opcode::OpNot => self.op_not(progs, code),
            Opcode::OpPop => self.op_pop(progs, code),
            Opcode::OpSetGlobal(g) => self.op_set_global(progs, code, g),
            Opcode::OpGetGlobal(g) => self.op_get_global(progs, code, g),
            Opcode::OpSetLocal(idx) => self.set_local(idx),
            Opcode::OpGetLocal(idx) => self.op_get_local(progs, code, idx),
            Opcode::OpJump(pos) => self.op_jump(progs, code, pos),
            Opcode::OpJumpIfFalse(pos) => self.op_jump_if_false(progs, code, pos),
            Opcode::OpCall(n) => self.op_call(progs, code, n),
            Opcode::OpReturnValue => self.return_value(),
            Opcode::OpGetUpvalue(idx) => self.get_upvalue(idx),
            Opcode::OpSetUpvalue(idx) => self.set_upvalue(idx),
            Opcode::OpClosure(idx, n) => self.make_closure(progs, code, prog, idx, n),
            Opcode::OpShellExecute => self.op_shell_execute(progs, code),
            Opcode::OpArray(n) => self.op_array(progs, code, n),
            Opcode::OpObject(n) => self.op_object(progs, code, n),
            Opcode::OpIndex => self.op_index(progs, code),
            Opcode::OpSetIndex => self.op_set_index(progs, code),
            Opcode::OpMethodCall(n) => self.op_method_call(progs, code, n),
            Opcode::OpImport => self.op_import(progs, code),
            Opcode::OpTryStart(addr) => self.op_try_start(progs, code, addr),
            Opcode::OpTryEnd => self.op_try_end(progs, code),
            Opcode::OpThrow => self.op_throw(progs, code),
            Opcode::OpAwait => self.await_value(progs),
        }
    }

    /// Runs one step: see `step_spec`.
    pub fn vm_step(&mut self, progs: &Vec<Program>) -> (a: VmAction)
        requires
            old(self).running(),
        ensures
            (final(self)@, a@) == step_spec(old(self)@, progs_view(progs@)),
    {
        if self.halted {
            return VmAction::Halt;
        }
        match code_of(progs, self.frame.code) {
            None => VmAction::Abort { reason: AbortReason::BadReference },
            Some(code) => {
                if self.frame.ip >= code.len() {
                    match self.frames.pop() {
                        Some(f) => {
                            self.frame = f;
                            self.stack.push(Value::Null);
                            self.count = 0;
                            VmAction::Continue
                        },
                        None => {
                            self.halted = true;
                            VmAction::Halt
                        },
                    }
                } else if self.count >= MAX_INSTRUCTIONS {
                    VmAction::Abort { reason: AbortReason::InstructionLimit }
                } else if self.stack.len() > MAX_STACK_SIZE {
                    VmAction::Abort { reason: AbortReason::StackOverflow }
                } else {
                    let op = code[self.frame.ip];
                    self.count = self.count + 1;
                    self.frame.ip = self.frame.ip + 1;
                    self.exec_op(progs, code, op)
                }
            },
        }
    }

    /// Takes the host's answer to the action it was waiting for.
    pub fn vm_resume(&mut self, event: VmEvent) -> (a: VmAction)
        requires
            old(self).waiting,
        ensures
            (final(self)@, a@) == resume_spec(old(self)@, event),
            !final(self).waiting,
    {
        self.waiting = false;
        match event {
            VmEvent::Push(v) => {
                self.stack.push(v);
                VmAction::Continue
            },
            VmEvent::Raise(err) => self.raise(err),
        }
    }

    /// A machine that runs the top level of program `prog` as an imported
    /// script: with these globals, cells, closures and futures, and an empty
    /// stack, no frames, no open cells and no `try` handlers.
    pub fn for_import(&self, prog: usize) -> (child: VmState)
        ensures
            child@ == fresh_vm(prog, self@.globals, self@.cells, self@.closures, self@.env_cells, self@.futures,
                self@.future_args),
    {
        let mut globals: Vec<(usize, Value)> = Vec::new();
        let mut i: usize = 0;
        while i < self.globals.len()
            invariant
                i <= self.globals@.len(),
                globals@ == self.globals@.subrange(0, i as int),
            decreases self.globals@.len() - i,
        {
            globals.push(self.globals[i]);
            i = i + 1;
            assert(globals@ =~= self.globals@.subrange(0, i as int));
        }
        assert(globals@ =~= self.globals@);
        let cells = self.cells.clone();
        assert(cells@ =~= self.cells@);
        let closures = self.closures.clone();
        assert(closures@ =~= self.closures@);
        let env_cells = self.env_cells.clone();
        assert(env_cells@ =~= self.env_cells@);
        let futures = self.futures.clone();
        assert(futures@ =~= self.futures@);
        let future_args = self.future_args.clone();
        assert(future_args@ =~= self.future_args@);
        VmState {
            stack: Vec::new(),
            globals,
            frame: Frame { code: CodeRef::Main(prog), ip: 0, base: 0, env: None },
            frames: Vec::new(),
            cells,
            open: Vec::new(),
            closures,
            env_cells,
            futures,
            future_args,
            handlers: TryStack::new(),
            count: 0,
            waiting: false,
            halted: false,
        }
    }

    /// After an imported script ran in `child`: its globals, cells, closures
    /// and futures become this machine's.
    pub fn adopt_import(&mut self, child: VmState)
        ensures
            final(self)@ == (VmView {
                globals: child@.globals,
                cells: child@.cells,
                closures: child@.closures,
                env_cells: child@.env_cells,
                futures: child@.futures,
                future_args: child@.future_args,
                ..old(self)@
            }),
    {
        self.globals = child.globals;
        self.cells = child.cells;
        self.closures = child.closures;
        self.env_cells = child.env_cells;
        self.futures = child.futures;
        self.future_args = child.future_args;
    }
}

impl VmState {
    fn load_constant(&mut self, progs: &Vec<Program>, code: &Vec<Opcode>, idx: usize) -> (a: VmAction)
        ensures
            (final(self)@, a@) == exec_spec(old(self)@, progs_view(progs@), code@, Opcode::OpConstant(idx)),
    {
        let prog = match self.frame.code {
            CodeRef::Main(p) => p,
            CodeRef::Func(f) => f.prog,
        };
        match constant_kind(progs, prog, idx) {
            None => VmAction::Abort { reason: AbortReason::BadReference },
            Some(true) => {
                self.stack.push(Value::Func(FnRef { prog, index: idx, sync: false }));
                VmAction::Continue
            },
            Some(false) => {
                self.waiting = true;
                VmAction::Constant { prog, index: idx }
            },
        }
    }
}

impl VmState {
    fn op_true(&mut self, progs: &Vec<Program>, code: &Vec<Opcode>) -> (a: VmAction)
        ensures
            (final(self)@, a@) == exec_spec(old(self)@, progs_view(progs@), code@, Opcode::OpTrue),
    {
        let prog = match self.frame.code {
            CodeRef::Main(p) => p,
            CodeRef::Func(f) => f.prog,
        };
        let op = Opcode::OpTrue;
        {
                self.stack.push(Value::Bool(true));
                VmAction::Continue
            }
    }

    fn op_false(&mut self, progs: &Vec<Program>, code: &Vec<Opcode>) -> (a: VmAction)
        ensures
            (final(self)@, a@) == exec_spec(old(self)@, progs_view(progs@), code@, Opcode::OpFalse),
    {
        let prog = match self.frame.code {
            CodeRef::Main(p) => p,
            CodeRef::Func(f) => f.prog,
        };
        let op = Opcode::OpFalse;
        {
                self.stack.push(Value::Bool(false));
                VmAction::Continue
            }
    }

    fn op_null(&mut self, progs: &Vec<Program>, code: &Vec<Opcode>) -> (a: VmAction)
        ensures
            (final(self)@, a@) == exec_spec(old(self)@, progs_view(progs@), code@, Opcode::OpNull),
    {
        let prog = match self.frame.code {
            CodeRef::Main(p) => p,
            CodeRef::Func(f) => f.prog,
        };
        let op = Opcode::OpNull;
        {
                self.stack.push(Value::Null);
                VmAction::Continue
            }
    }

    fn op_not(&mut self, progs: &Vec<Program>, code: &Vec<Opcode>) -> (a: VmAction)
        ensures
            (final(self)@, a@) == exec_spec(old(self)@, progs_view(progs@), code@, Opcode::OpNot),
    {
        let prog = match self.frame.code {
            CodeRef::Main(p) => p,
            CodeRef::Func(f) => f.prog,
        };
        let op = Opcode::OpNot;
        {
                let v = self.pop_or_null();
                let r = match v {
                    Value::Bool(b) => !b,
                    Value::Null => true,
                    _ => false,
                };
                self.stack.push(Value::Bool(r));
                VmAction::Continue
            }
    }

    fn op_pop(&mut self, progs: &Vec<Program>, code: &Vec<Opcode>) -> (a: VmAction)
        ensures
            (final(self)@, a@) == exec_spec(old(self)@, progs_view(progs@), code@, Opcode::OpPop),
    {
        let prog = match self.frame.code {
            CodeRef::Main(p) => p,
            CodeRef::Func(f) => f.prog,
        };
        let op = Opcode::OpPop;
        {
                let _ = self.pop_or_null();
                VmAction::Continue
            }
    }

    fn op_set_global(&mut self, progs: &Vec<Program>, code: &Vec<Opcode>, g: usize) -> (a: VmAction)
        ensures
            (final(self)@, a@) == exec_spec(old(self)@, progs_view(progs@), code@, Opcode::OpSetGlobal(g)),
    {
        let prog = match self.frame.code {
            CodeRef::Main(p) => p,
            CodeRef::Func(f) => f.prog,
        };
        let op = Opcode::OpSetGlobal(g);
        {
                if self.stack.len() > 0 {
                    let v = self.stack[self.stack.len() - 1];
                    self.set_global(g, v);
                }
                VmAction::Continue
            }
    }

    fn op_get_global(&mut self, progs: &Vec<Program>, code: &Vec<Opcode>, g: usize) -> (a: VmAction)
        ensures
            (final(self)@, a@) == exec_spec(old(self)@, progs_view(progs@), code@, Opcode::OpGetGlobal(g)),
    {
        let prog = match self.frame.code {
            CodeRef::Main(p) => p,
            CodeRef::Func(f) => f.prog,
        };
        let op = Opcode::OpGetGlobal(g);
        {
                let v = self.get_global(g);
                self.stack.push(v);
                VmAction::Continue
            }
    }

    fn op_get_local(&mut self, progs: &Vec<Program>, code: &Vec<Opcode>, idx: usize) -> (a: VmAction)
        ensures
            (final(self)@, a@) == exec_spec(old(self)@, progs_view(progs@), code@, Opcode::OpGetLocal(idx)),
    {
        let prog = match self.frame.code {
            CodeRef::Main(p) => p,
            CodeRef::Func(f) => f.prog,
        };
        let op = Opcode::OpGetLocal(idx);
        {
                if self.frame.base <= usize::MAX - idx && self.frame.base + idx < self.stack.len() {
                    let v = self.stack[self.frame.base + idx];
                    let ghost s0 = self@;
                    self.stack.push(v);
                    assert(self@ == push_v(s0, s0.stack[s0.frame.base + idx]));
                    VmAction::Continue
                } else {
                    let l = self.stack.len();
                    assert(l == self@.stack.len());
                    assert(self@.frame.base + idx >= self@.stack.len());
                    VmAction::Abort { reason: AbortReason::BadReference }
                }
            }
    }

    fn op_jump(&mut self, progs: &Vec<Program>, code: &Vec<Opcode>, pos: usize) -> (a: VmAction)
        ensures
            (final(self)@, a@) == exec_spec(old(self)@, progs_view(progs@), code@, Opcode::OpJump(pos)),
    {
        let prog = match self.frame.code {
            CodeRef::Main(p) => p,
            CodeRef::Func(f) => f.prog,
        };
        let op = Opcode::OpJump(pos);
        {
                if pos > code.len() {
                    VmAction::Abort { reason: AbortReason::JumpOutOfBounds }
                } else {
                    self.frame.ip = pos;
                    VmAction::Continue
                }
            }
    }

    fn op_jump_if_false(&mut self, progs: &Vec<Program>, code: &Vec<Opcode>, pos: usize) -> (a: VmAction)
        ensures
            (final(self)@, a@) == exec_spec(old(self)@, progs_view(progs@), code@, Opcode::OpJumpIfFalse(pos)),
    {
        let prog = match self.frame.code {
            CodeRef::Main(p) => p,
            CodeRef::Func(f) => f.prog,
        };
        let op = Opcode::OpJumpIfFalse(pos);
        {
                if pos > code.len() {
                    VmAction::Abort { reason: AbortReason::JumpOutOfBounds }
                } else {
                    let v = self.pop_or_null();
                    if v == Value::Bool(false) || v == Value::Null {
                        self.frame.ip = pos;
                    }
                    VmAction::Continue
                }
            }
    }

    fn op_call(&mut self, progs: &Vec<Program>, code: &Vec<Opcode>, n: usize) -> (a: VmAction)
        ensures
            (final(self)@, a@) == exec_spec(old(self)@, progs_view(progs@), code@, Opcode::OpCall(n)),
    {
        let prog = match self.frame.code {
            CodeRef::Main(p) => p,
            CodeRef::Func(f) => f.prog,
        };
        let op = Opcode::OpCall(n);
        {
                let a = self.call(progs, n);
                self.count = 0;
                a
            }
    }

    fn op_shell_execute(&mut self, progs: &Vec<Program>, code: &Vec<Opcode>) -> (a: VmAction)
        ensures
            (final(self)@, a@) == exec_spec(old(self)@, progs_view(progs@), code@, Opcode::OpShellExecute),
    {
        let prog = match self.frame.code {
            CodeRef::Main(p) => p,
            CodeRef::Func(f) => f.prog,
        };
        let op = Opcode::OpShellExecute;
        {
                if self.stack.len() > 0 {
                    let v = self.pop_or_null();
                    self.waiting = true;
                    VmAction::Shell { command: v }
                } else {
                    VmAction::Continue
                }
            }
    }

    fn op_array(&mut self, progs: &Vec<Program>, code: &Vec<Opcode>, n: usize) -> (a: VmAction)
        ensures
            (final(self)@, a@) == exec_spec(old(self)@, progs_view(progs@), code@, Opcode::OpArray(n)),
    {
        let prog = match self.frame.code {
            CodeRef::Main(p) => p,
            CodeRef::Func(f) => f.prog,
        };
        let op = Opcode::OpArray(n);
        {
                let start = if self.stack.len() >= n { self.stack.len() - n } else { 0 };
                let items = self.stack.split_off(start);
                self.waiting = true;
                VmAction::MakeArray { items }
            }
    }

    fn op_object(&mut self, progs: &Vec<Program>, code: &Vec<Opcode>, n: usize) -> (a: VmAction)
        ensures
            (final(self)@, a@) == exec_spec(old(self)@, progs_view(progs@), code@, Opcode::OpObject(n)),
    {
        let prog = match self.frame.code {
            CodeRef::Main(p) => p,
            CodeRef::Func(f) => f.prog,
        };
        let op = Opcode::OpObject(n);
        {
                if n > usize::MAX / 2 {
                    VmAction::Abort { reason: AbortReason::StackUnderflow }
                } else {
                    let total = 2 * n;
                    let start = if self.stack.len() >= total { self.stack.len() - total } else { 0 };
                    let items = self.stack.split_off(start);
                    self.waiting = true;
                    VmAction::MakeObject { items }
                }
            }
    }

    fn op_index(&mut self, progs: &Vec<Program>, code: &Vec<Opcode>) -> (a: VmAction)
        ensures
            (final(self)@, a@) == exec_spec(old(self)@, progs_view(progs@), code@, Opcode::OpIndex),
    {
        let prog = match self.frame.code {
            CodeRef::Main(p) => p,
            CodeRef::Func(f) => f.prog,
        };
        let op = Opcode::OpIndex;
        {
                if self.stack.len() < 2 {
                    self.stack.push(Value::Null);
                    VmAction::Continue
                } else {
                    let index = self.stack.pop().unwrap();
                    let collection = self.stack.pop().unwrap();
                    self.waiting = true;
                    assert(self.stack@ =~= old(self)@.stack.subrange(0, old(self)@.stack.len() - 2));
                    VmAction::Index { collection, index }
                }
            }
    }

    fn op_set_index(&mut self, progs: &Vec<Program>, code: &Vec<Opcode>) -> (a: VmAction)
        ensures
            (final(self)@, a@) == exec_spec(old(self)@, progs_view(progs@), code@, Opcode::OpSetIndex),
    {
        let prog = match self.frame.code {
            CodeRef::Main(p) => p,
            CodeRef::Func(f) => f.prog,
        };
        let op = Opcode::OpSetIndex;
        {
                if self.stack.len() < 3 {
                    self.stack.push(Value::Null);
                    VmAction::Continue
                } else {
                    let value = self.stack.pop().unwrap();
                    let index = self.stack.pop().unwrap();
                    let collection = self.stack.pop().unwrap();
                    self.waiting = true;
                    assert(self.stack@ =~= old(self)@.stack.subrange(0, old(self)@.stack.len() - 3));
                    VmAction::SetIndex { collection, index, value }
                }
            }
    }

    fn op_method_call(&mut self, progs: &Vec<Program>, code: &Vec<Opcode>, n: usize) -> (a: VmAction)
        ensures
            (final(self)@, a@) == exec_spec(old(self)@, progs_view(progs@), code@, Opcode::OpMethodCall(n)),
    {
        let prog = match self.frame.code {
            CodeRef::Main(p) => p,
            CodeRef::Func(f) => f.prog,
        };
        let op = Opcode::OpMethodCall(n);
        {
                if self.stack.len() < n {
                    VmAction::Abort { reason: AbortReason::StackUnderflow }
                } else {
                    let from = self.stack.len() - n;
                    let args = self.stack.split_off(from);
                    self.count = 0;
                    let method = self.pop_or_null();
                    let receiver = self.pop_or_null();
                    match method {
                        Value::Data(DataKind::String, _) => {
                            self.waiting = true;
                            VmAction::MethodCall { receiver, method, args }
                        },
                        _ => {
                            self.stack.push(Value::Null);
                            VmAction::Continue
                        },
                    }
                }
            }
    }

    fn op_import(&mut self, progs: &Vec<Program>, code: &Vec<Opcode>) -> (a: VmAction)
        ensures
            (final(self)@, a@) == exec_spec(old(self)@, progs_view(progs@), code@, Opcode::OpImport),
    {
        let prog = match self.frame.code {
            CodeRef::Main(p) => p,
            CodeRef::Func(f) => f.prog,
        };
        let op = Opcode::OpImport;
        {
                if self.stack.len() > 0 {
                    let v = self.pop_or_null();
                    self.waiting = true;
                    VmAction::Import { path: v }
                } else {
                    VmAction::Continue
                }
            }
    }

    fn op_try_start(&mut self, progs: &Vec<Program>, code: &Vec<Opcode>, addr: usize) -> (a: VmAction)
        ensures
            (final(self)@, a@) == exec_spec(old(self)@, progs_view(progs@), code@, Opcode::OpTryStart(addr)),
    {
        let prog = match self.frame.code {
            CodeRef::Main(p) => p,
            CodeRef::Func(f) => f.prog,
        };
        let op = Opcode::OpTryStart(addr);
        {
                let frames = self.frames.len();
                let depth = self.stack.len();
                self.handlers.try_start(addr, frames, depth);
                VmAction::Continue
            }
    }

    fn op_try_end(&mut self, progs: &Vec<Program>, code: &Vec<Opcode>) -> (a: VmAction)
        ensures
            (final(self)@, a@) == exec_spec(old(self)@, progs_view(progs@), code@, Opcode::OpTryEnd),
    {
        let prog = match self.frame.code {
            CodeRef::Main(p) => p,
            CodeRef::Func(f) => f.prog,
        };
        let op = Opcode::OpTryEnd;
        {
                self.handlers.try_end();
                VmAction::Continue
            }
    }

    fn op_throw(&mut self, progs: &Vec<Program>, code: &Vec<Opcode>) -> (a: VmAction)
        ensures
            (final(self)@, a@) == exec_spec(old(self)@, progs_view(progs@), code@, Opcode::OpThrow),
    {
        let prog = match self.frame.code {
            CodeRef::Main(p) => p,
            CodeRef::Func(f) => f.prog,
        };
        let op = Opcode::OpThrow;
        {
                let v = self.pop_or_null();
                self.raise(v)
            }
    }
}

// ── laws ─────────────────────────────────────────────────────────────────

/// A conditional jump whose target lies within the code pops the condition
/// and jumps exactly on the falsy values, `null` and `false`: those that `!`
/// turns into `true`. On any other value it goes on with the next
/// instruction. Nothing else changes but the instruction count.
pub proof fn law_jump_if_false_on_falsy(s: VmView, progs: Seq<ProgView>, target: usize)
    requires
        !s.halted,
        frame_code(progs, s.frame.code) is Some,
        s.frame.ip < frame_code(progs, s.frame.code)->Some_0.len(),
        frame_code(progs, s.frame.code)->Some_0[s.frame.ip as int] == Opcode::OpJumpIfFalse(target),
        target <= frame_code(progs, s.frame.code)->Some_0.len() <= usize::MAX,
        s.count < MAX_INSTRUCTIONS,
        0 < s.stack.len() <= MAX_STACK_SIZE,
    ensures
        ({
            let code = frame_code(progs, s.frame.code)->Some_0;
            let (r, a) = step_spec(s, progs);
            let v = s.stack.last();
            let negated = exec_spec(s, progs, code, Opcode::OpNot).0.stack.last();
            &&& a == ActionView::Continue
            &&& r.stack == s.stack.drop_last()
            &&& r.count == s.count + 1
            &&& (VmView { stack: s.stack, count: s.count, frame: Frame { ip: s.frame.ip, ..r.frame }, ..r }) == s
            &&& (v == Value::Null ==> r.frame.ip == target)
            &&& (v == Value::Bool(false) ==> r.frame.ip == target)
            &&& (v == Value::Bool(true) ==> r.frame.ip == s.frame.ip + 1)
            &&& (v is Data || v is Func || v is Closure || v is Native || v is Future ==> r.frame.ip == s.frame.ip + 1)
            &&& (r.frame.ip == target || r.frame.ip == s.frame.ip + 1)
            &&& (negated == Value::Bool(true) ==> r.frame.ip == target)
            &&& (negated == Value::Bool(false) && target != s.frame.ip + 1 ==> r.frame.ip != target)
        }),
{
    let code = frame_code(progs, s.frame.code)->Some_0;
    let op = code[s.frame.ip as int];
    let t = VmView { count: (s.count + 1) as usize, frame: Frame { ip: (s.frame.ip + 1) as usize, ..s.frame }, ..s };
    assert(step_spec(s, progs) == exec_spec(t, progs, code, op));
    let (u, v) = pop_v(t);
    assert(v == s.stack.last());
    assert(u.stack == s.stack.drop_last());
    let (r, a) = step_spec(s, progs);
    if v == Value::Bool(false) || v == Value::Null {
        assert(r == VmView { frame: Frame { ip: target, ..u.frame }, ..u });
    } else {
        assert(r == u);
    }
    assert((VmView { stack: s.stack, count: s.count, frame: Frame { ip: s.frame.ip, ..r.frame }, ..r }) =~= s);
    let (w, x) = pop_v(s);
    assert(x == v);
    let negated = exec_spec(s, progs, code, Opcode::OpNot).0.stack.last();
    assert(negated == Value::Bool(match x {
        Value::Bool(b) => !b,
        Value::Null => true,
        _ => false,
    }));
}


/// What a machine value is as a callee, where it is one the machine can
/// resolve (a function constant of a program, a closure it made, a built-in,
/// or any other value).
pub open spec fn callee_kind(s: VmView, progs: Seq<ProgView>, v: Value) -> Option<CalleeKind> {
    let f = match v {
        Value::Func(f) => Some(f),
        Value::Closure(cid) => if cid < s.closures.len() { Some(s.closures[cid as int].func) } else { None },
        _ => None,
    };
    match f {
        Some(f) => match fn_info(progs, f) {
            Some((_, num_locals, is_async)) => Some(CalleeKind::Function { is_async, num_locals }),
            None => None,
        },
        None => match v {
            Value::Native(_) => Some(CalleeKind::Native),
            Value::Closure(_) => None,
            _ => Some(CalleeKind::NotCallable),
        },
    }
}

/// A call does what `call_step` plans for its callee: a function gets a
/// frame at the planned base with the planned null slots, an async function
/// a future of the arguments from the planned position, a built-in is called
/// with those arguments, and anything else is replaced, with its arguments,
/// by null.
pub proof fn law_call_follows_plan(s: VmView, progs: Seq<ProgView>, arg_count: usize)
    requires
        arg_count + 1 <= s.stack.len() <= usize::MAX,
        callee_kind(s, progs, s.stack[s.stack.len() - arg_count - 1]) is Some,
    ensures
        ({
            let n = s.stack.len();
            let (t, a) = call_spec(s, progs, arg_count);
            let k = callee_kind(s, progs, s.stack[n - arg_count - 1]).unwrap();
            match call_step(k, n as nat, arg_count as nat) {
                CallStep::EnterFrame { base, extra_nulls } =>
                    t.frame.base == base && t.frame.ip == 0 && t.frames == s.frames.push(s.frame)
                        && t.stack == s.stack + Seq::new(extra_nulls as nat, |i: int| Value::Null) && a == ActionView::Continue,
                CallStep::MakeFuture { args_from } =>
                    t.future_args == s.future_args + s.stack.subrange(args_from as int, n as int)
                        && t.stack == s.stack.subrange(0, args_from - 1).push(Value::Future(s.futures.len() as usize))
                        && a == ActionView::Continue,
                CallStep::CallNative { args_from } =>
                    a matches ActionView::CallNative { args, .. } && args == s.stack.subrange(args_from as int, n as int)
                        && t.stack == s.stack.subrange(0, args_from - 1),
                CallStep::ReplaceWithNull { callee_at } =>
                    t.stack == s.stack.subrange(0, callee_at as int).push(Value::Null) && a == ActionView::Continue,
            }
        }),
{
    let n = s.stack.len();
    let k = callee_kind(s, progs, s.stack[n - arg_count - 1]).unwrap();
    let (t, a) = call_spec(s, progs, arg_count);
    if let CalleeKind::Function { is_async, num_locals } = k {
        let extra: nat = if num_locals > arg_count { (num_locals - arg_count) as nat } else { 0 };
        assert(extra == (if num_locals > arg_count { (num_locals - arg_count) as usize } else { 0usize }) as nat);
        let callee = s.stack[n - arg_count - 1];
        let f = match callee {
            Value::Func(f) => f,
            Value::Closure(cid) => s.closures[cid as int].func,
            _ => FnRef { prog: 0, index: 0, sync: false },
        };
        assert(callee is Func || callee is Closure);
        assert(fn_info(progs, f) matches Some(info) && info.2 == is_async && info.1 == num_locals);
        if is_async {
            let from = (n - arg_count) as usize;
            assert(t.stack =~= s.stack.subrange(0, from - 1).push(Value::Future(s.futures.len() as usize)));
            assert(t.future_args =~= s.future_args + s.stack.subrange(from as int, n as int));
        }
    }
}

proof fn lemma_open_pos_props(s: VmView, slot: usize)
    ensures
        open_pos(s, slot) matches Some(i) ==> 0 <= i < s.open.len() && opens_at(s, i, slot)
            && forall|j: int| 0 <= j < i ==> !#[trigger] opens_at(s, j, slot),
        open_pos(s, slot) is None ==> forall|j: int| 0 <= j < s.open.len() ==> !#[trigger] opens_at(s, j, slot),
    decreases s.open.len(),
{
    if s.open.len() > 0 {
        let t = VmView { open: s.open.drop_last(), ..s };
        lemma_open_pos_props(t, slot);
        assert forall|j: int| 0 <= j < t.open.len() implies (opens_at(t, j, slot) == opens_at(s, j, slot)) by {}
    }
}

/// Capturing the same stack slot again gives the same cell and changes
/// nothing: closures that capture one variable share its cell.
pub proof fn law_capture_again(s: VmView, slot: usize)
    requires
        s.cells.len() < usize::MAX,
    ensures
        capture_spec(capture_spec(s, slot).0, slot) == capture_spec(s, slot),
{
    lemma_open_pos_props(s, slot);
    let (t, c) = capture_spec(s, slot);
    if open_pos(s, slot) is None {
        lemma_open_pos_props(t, slot);
        let last = t.open.len() - 1;
        assert(t.open[last] == c);
        assert(opens_at(t, last, slot));
        match open_pos(t, slot) {
            Some(i) => {
                if i < s.open.len() {
                    assert(t.open[i] == s.open[i]);
                    if s.open[i] < s.cells.len() {
                        assert(t.cells[s.open[i] as int] == s.cells[s.open[i] as int]);
                        assert(opens_at(s, i, slot));
                    }
                }
            },
            None => {},
        }
    }
}

/// Closing the captured variables of slot `last_slot` and above leaves no
/// open cell pointing at such a slot: after a return, no captured variable
/// points into the slots the frame gave up.
pub proof fn law_close_leaves_none_above(s: VmView, last_slot: usize)
    ensures
        close_spec(s, last_slot) matches Some(t) ==> forall|j: int| 0 <= j < t.open.len() ==>
            !(#[trigger] t.open[j] < t.cells.len() && (t.cells[t.open[j] as int] matches Cell::Open(i) && i >= last_slot)),
    decreases s.open.len(),
{
    if s.open.len() > 0 {
        let p = VmView { open: s.open.drop_last(), ..s };
        law_close_leaves_none_above(p, last_slot);
        match close_spec(p, last_slot) {
            None => {},
            Some(t) => {
                let c = s.open.last();
                if c < t.cells.len() && (t.cells[c as int] matches Cell::Open(i) && i >= last_slot) {
                    let i = t.cells[c as int]->Open_0;
                    if i < t.stack.len() {
                        let t2 = VmView { cells: t.cells.update(c as int, Cell::Closed(t.stack[i as int])), ..t };
                        assert forall|j: int| 0 <= j < t2.open.len() implies
                            !(#[trigger] t2.open[j] < t2.cells.len() && (t2.cells[t2.open[j] as int] matches Cell::Open(k) && k >= last_slot)) by {
                            assert(t.open[j] != c);
                        }
                    }
                } else {
                    let t2 = VmView { open: t.open.push(c), ..t };
                    assert forall|j: int| 0 <= j < t2.open.len() implies
                        !(#[trigger] t2.open[j] < t2.cells.len() && (t2.cells[t2.open[j] as int] matches Cell::Open(k) && k >= last_slot)) by {
                        if j < t.open.len() {
                            assert(t2.open[j] == t.open[j]);
                        }
                    }
                }
            },
        }
    }
}

} // verus!
