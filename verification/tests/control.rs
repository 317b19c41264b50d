use erox::vm::control::{
    plan_call, CallStep, CalleeKind,
    call_layout, extra_locals, items_start, return_stack_len, runtime_error_report, ErrorRoute, TryHandler, TryStack,
};

#[test]
fn try_blocks_route_errors_to_the_innermost_catch() {
    let mut handlers = TryStack::new();
    assert_eq!(handlers.route_error(), ErrorRoute::Uncaught);
    handlers.try_start(10, 0, 3);
    handlers.try_start(20, 1, 5);
    assert_eq!(handlers.route_error(), ErrorRoute::Catch { stack_depth: 5, catch_ip: 20 });
    assert_eq!(handlers.handlers, vec![TryHandler { catch_ip: 10, frame_idx: 0, stack_depth: 3 }]);
    assert_eq!(handlers.route_error(), ErrorRoute::Catch { stack_depth: 3, catch_ip: 10 });
    assert_eq!(handlers.route_error(), ErrorRoute::Uncaught);
}

#[test]
fn leaving_a_try_block_undoes_entering_it() {
    let mut handlers = TryStack::new();
    handlers.try_start(7, 2, 4);
    handlers.try_start(9, 2, 6);
    handlers.try_end();
    assert_eq!(handlers.handlers, vec![TryHandler { catch_ip: 7, frame_idx: 2, stack_depth: 4 }]);
    handlers.try_end();
    handlers.try_end();
    assert!(handlers.handlers.is_empty());
}

#[test]
fn call_and_return_stack_layout() {
    assert_eq!(call_layout(5, 2), Some((2, 3)));
    assert_eq!(call_layout(1, 0), Some((0, 1)));
    assert_eq!(call_layout(2, 2), None);
    assert_eq!(extra_locals(4, 1), 3);
    assert_eq!(extra_locals(1, 3), 0);
    assert_eq!(return_stack_len(3), 2);
    assert_eq!(return_stack_len(0), 0);
    assert_eq!(items_start(10, 4), 6);
    assert_eq!(items_start(2, 4), 0);
}

#[test]
fn uncaught_error_report_names_its_kind() {
    let report = runtime_error_report("let a = 1\nboom()", "x.erx", 2, 1, "MethodError", "no such method");
    assert!(report.starts_with("\n\x1b[1m\x1b[31m[Error]\x1b[0m \x1b[1m→ \x1b[36mx.erx:2:1\x1b[0m \x1b[2m|\x1b[0m [MethodError] no such method\n"));
    assert!(report.contains("\x1b[1m2\x1b[0m \x1b[2m│\x1b[0m boom()\n"));
    assert!(report.contains("\x1b[2m1 │\x1b[0m let a = 1\n"));
}

#[test]
fn plan_call_decides_each_kind_of_callee() {
    let f = |is_async, num_locals| CalleeKind::Function { is_async, num_locals };
    assert_eq!(plan_call(f(false, 4), 6, 2), Some(CallStep::EnterFrame { base: 4, extra_nulls: 2 }));
    assert_eq!(plan_call(f(false, 1), 6, 2), Some(CallStep::EnterFrame { base: 4, extra_nulls: 0 }));
    assert_eq!(plan_call(f(true, 4), 6, 2), Some(CallStep::MakeFuture { args_from: 4 }));
    assert_eq!(plan_call(CalleeKind::Native, 3, 0), Some(CallStep::CallNative { args_from: 3 }));
    assert_eq!(plan_call(CalleeKind::NotCallable, 6, 2), Some(CallStep::ReplaceWithNull { callee_at: 3 }));
    assert_eq!(plan_call(CalleeKind::Native, 2, 2), None);
}
