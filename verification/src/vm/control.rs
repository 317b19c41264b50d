//! The runtime's control bookkeeping that does not depend on values: the
//! stack of `try` handlers, where a raised error goes, and the stack layout of
//! calls and returns.
use vstd::prelude::*;
use crate::compiler::diagnostics::{diagnostic_text, error_level, red_code, DiagnosticReporter};
use crate::compiler::lexer::Span;
use crate::text::{push_char, push_str};

verus! {

/// An active `try` block: where its `catch` starts, how many call frames were
/// saved when it began, and how deep the value stack was.
#[derive(Debug, Clone, Copy, PartialEq, Eq, Structural)]
pub struct TryHandler {
    pub catch_ip: usize,
    pub frame_idx: usize,
    pub stack_depth: usize,
}

/// Where a raised error goes.
#[derive(Debug, Clone, Copy, PartialEq, Eq, Structural)]
pub enum ErrorRoute {
    /// To the innermost handler: cut the value stack to `stack_depth`, push
    /// the error, and continue at `catch_ip`.
    Catch { stack_depth: usize, catch_ip: usize },
    /// No handler is active: the error is reported and the program stops.
    Uncaught,
}

/// The handlers after entering a `try` block.
pub open spec fn entered(hs: Seq<TryHandler>, catch_ip: usize, frame_count: usize, stack_len: usize) -> Seq<TryHandler> {
    hs.push(TryHandler { catch_ip, frame_idx: frame_count, stack_depth: stack_len })
}

/// The handlers after leaving the innermost `try` block (unchanged with none).
pub open spec fn left(hs: Seq<TryHandler>) -> Seq<TryHandler> {
    if hs.len() > 0 {
        hs.drop_last()
    } else {
        hs
    }
}

/// Where an error goes with handlers `hs`, and the handlers afterwards.
pub open spec fn routed(hs: Seq<TryHandler>) -> (ErrorRoute, Seq<TryHandler>) {
    if hs.len() > 0 {
        (ErrorRoute::Catch { stack_depth: hs.last().stack_depth, catch_ip: hs.last().catch_ip }, hs.drop_last())
    } else {
        (ErrorRoute::Uncaught, hs)
    }
}

/// The active `try` handlers, innermost last.
pub struct TryStack {
    pub handlers: Vec<TryHandler>,
}

impl TryStack {
    /// No handler active.
    pub fn new() -> (s: Self)
        ensures
            s.handlers@ == Seq::<TryHandler>::empty(),
    {
        TryStack { handlers: Vec::new() }
    }

    /// Enters a `try` block whose `catch` starts at `catch_ip`, with
    /// `frame_count` saved frames and `stack_len` values on the stack.
    pub fn try_start(&mut self, catch_ip: usize, frame_count: usize, stack_len: usize)
        ensures
            final(self).handlers@ == entered(old(self).handlers@, catch_ip, frame_count, stack_len),
    {
        self.handlers.push(TryHandler { catch_ip, frame_idx: frame_count, stack_depth: stack_len });
    }

    /// Leaves the innermost `try` block (nothing happens with none active).
    pub fn try_end(&mut self)
        ensures
            final(self).handlers@ == left(old(self).handlers@),
    {
        let _ = self.handlers.pop();
    }

    /// Where an error raised now goes; the handler that catches it is left.
    pub fn route_error(&mut self) -> (r: ErrorRoute)
        ensures
            (r, final(self).handlers@) == routed(old(self).handlers@),
    {
        match self.handlers.pop() {
            Some(h) => ErrorRoute::Catch { stack_depth: h.stack_depth, catch_ip: h.catch_ip },
            None => ErrorRoute::Uncaught,
        }
    }
}

/// Leaving a `try` block right after entering it restores the handlers.
pub proof fn law_leave_undoes_enter(hs: Seq<TryHandler>, catch_ip: usize, frame_count: usize, stack_len: usize)
    ensures
        left(entered(hs, catch_ip, frame_count, stack_len)) == hs,
{
    assert(entered(hs, catch_ip, frame_count, stack_len).drop_last() =~= hs);
}

/// An error raised inside a `try` block, with no other block entered since,
/// goes to that block's `catch` with the stack depth it began with, and the
/// handlers are as before the block.
pub proof fn law_error_goes_to_innermost_catch(hs: Seq<TryHandler>, catch_ip: usize, frame_count: usize, stack_len: usize)
    ensures
        routed(entered(hs, catch_ip, frame_count, stack_len)) == (ErrorRoute::Catch { stack_depth: stack_len, catch_ip }, hs),
{
    assert(entered(hs, catch_ip, frame_count, stack_len).drop_last() =~= hs);
}

/// The stack positions of a call with `arg_count` arguments on a stack of
/// `stack_len` values, the callee below them: `(callee, base)`, where the
/// callee's locals start at `base`.
pub open spec fn call_slots(stack_len: nat, arg_count: nat) -> (int, int) {
    (stack_len - arg_count - 1, stack_len - arg_count)
}

/// Where a call finds its callee and where its frame starts: `None` where the
/// stack holds fewer than `arg_count + 1` values.
pub fn call_layout(stack_len: usize, arg_count: usize) -> (r: Option<(usize, usize)>)
    ensures
        stack_len >= arg_count + 1 ==> r == Some(
            ((call_slots(stack_len as nat, arg_count as nat).0) as usize, (call_slots(stack_len as nat, arg_count as nat).1) as usize),
        ),
        stack_len < arg_count + 1 ==> r is None,
{
    if arg_count < stack_len {
        Some((stack_len - arg_count - 1, stack_len - arg_count))
    } else {
        None
    }
}

/// What the value called by `OpCall` is, as far as the call protocol cares.
#[derive(Debug, Clone, Copy, PartialEq, Eq, Structural)]
pub enum CalleeKind {
    /// A compiled function or a closure over one.
    Function { is_async: bool, num_locals: usize },
    /// A built-in function.
    Native,
    /// Any other value.
    NotCallable,
}

/// What a call does with the callee and its arguments on the stack.
#[derive(Debug, Clone, Copy, PartialEq, Eq, Structural)]
pub enum CallStep {
    /// Save the current frame and run the function in a new one whose locals
    /// start at `base` (the first argument), pushing `extra_nulls` null slots
    /// for the locals beyond the arguments.
    EnterFrame { base: usize, extra_nulls: usize },
    /// Pop the arguments from `args_from` on (first argument first) and the
    /// callee, and push a future of the call.
    MakeFuture { args_from: usize },
    /// Pop the arguments from `args_from` on (first argument first) and the
    /// callee, call the built-in with them and push its result.
    CallNative { args_from: usize },
    /// Pop the arguments and the callee at `callee_at`, and push null.
    ReplaceWithNull { callee_at: usize },
}

/// The step for calling a callee of kind `k` with `arg_count` arguments on a
/// stack of `stack_len` values: an async function becomes a future, another
/// function gets a frame, a built-in is called, and anything else gives null.
pub open spec fn call_step(k: CalleeKind, stack_len: nat, arg_count: nat) -> CallStep {
    let callee = (stack_len - arg_count - 1) as usize;
    let from = (stack_len - arg_count) as usize;
    match k {
        CalleeKind::Function { is_async, num_locals } => {
            if is_async {
                CallStep::MakeFuture { args_from: from }
            } else {
                CallStep::EnterFrame {
                    base: from,
                    extra_nulls: if num_locals > arg_count { (num_locals - arg_count) as usize } else { 0 },
                }
            }
        },
        CalleeKind::Native => CallStep::CallNative { args_from: from },
        CalleeKind::NotCallable => CallStep::ReplaceWithNull { callee_at: callee },
    }
}

/// The step of a call, or `None` where the stack holds fewer than
/// `arg_count + 1` values (no callee below the arguments).
pub fn plan_call(k: CalleeKind, stack_len: usize, arg_count: usize) -> (r: Option<CallStep>)
    ensures
        stack_len < arg_count + 1 ==> r is None,
        stack_len >= arg_count + 1 ==> r == Some(call_step(k, stack_len as nat, arg_count as nat)),
{
    if arg_count >= stack_len {
        return None;
    }
    let from = stack_len - arg_count;
    let step = match k {
        CalleeKind::Function { is_async, num_locals } => {
            if is_async {
                CallStep::MakeFuture { args_from: from }
            } else {
                CallStep::EnterFrame { base: from, extra_nulls: extra_locals(num_locals, arg_count) }
            }
        },
        CalleeKind::Native => CallStep::CallNative { args_from: from },
        CalleeKind::NotCallable => CallStep::ReplaceWithNull { callee_at: from - 1 },
    };
    Some(step)
}

/// How many null slots a called function needs beyond its arguments.
pub fn extra_locals(num_locals: usize, arg_count: usize) -> (r: usize)
    ensures
        r == if num_locals > arg_count { num_locals - arg_count } else { 0 },
{
    if num_locals > arg_count {
        num_locals - arg_count
    } else {
        0
    }
}

/// The stack length after a return from a frame whose locals start at
/// `base_pointer`: the callee's slot and everything above it go.
pub fn return_stack_len(base_pointer: usize) -> (r: usize)
    ensures
        r == if base_pointer > 0 { base_pointer - 1 } else { 0 },
{
    if base_pointer > 0 {
        base_pointer - 1
    } else {
        0
    }
}

/// Where the values of a literal with `count` items start on a stack of
/// `stack_len` values (all of the stack where it holds fewer).
pub fn items_start(stack_len: usize, count: usize) -> (r: usize)
    ensures
        r == if stack_len >= count { stack_len - count } else { 0 },
{
    stack_len.saturating_sub(count)
}

/// `[{err_type}] {msg}`: the message of an uncaught error.
pub open spec fn runtime_message(err_type: Seq<char>, msg: Seq<char>) -> Seq<char> {
    seq!['['] + err_type + seq![']', ' '] + msg
}

/// The report of an uncaught runtime error of kind `err_type` raised at
/// `line`:`col` of `source`.
pub fn runtime_error_report(
    source: &str,
    filename: &str,
    line: usize,
    col: usize,
    err_type: &str,
    msg: &str,
) -> (r: String)
    ensures
        r@ == diagnostic_text(source@, filename@, error_level(), red_code(), Span { line, col }, runtime_message(err_type@, msg@)),
{
    let reporter = DiagnosticReporter::new(source, filename);
    let mut message = String::new();
    push_char(&mut message, '[');
    push_str(&mut message, err_type);
    push_char(&mut message, ']');
    push_char(&mut message, ' ');
    push_str(&mut message, msg);
    assert(message@ =~= runtime_message(err_type@, msg@));
    reporter.report_error(Span { line, col }, message.as_str())
}

} // verus!
