use rlox::interpreter::Interpreter;
use rlox::lox_object::RuntimeError;
use rlox::lox_runner::code_to_stblock;

/// Runs a program on a fresh interpreter; the result and everything it
/// printed.
fn run(src: &str) -> (Result<(), RuntimeError>, String) {
    let stmts = code_to_stblock(src).expect("program should parse");
    let mut interp = Interpreter::new();
    let r = interp.interpret(&stmts);
    (r, interp.output_string())
}

fn run_ok(src: &str) -> String {
    let (r, out) = run(src);
    assert!(r.is_ok(), "program failed: {:?}", r);
    out
}

#[test]
fn precedence_mul_binds_tighter_than_add() {
    assert_eq!(run_ok("print(2+3*4);"), "14 \n");
}

#[test]
fn precedence_grouping_overrides() {
    assert_eq!(run_ok("print((2+3)*4);"), "20 \n");
}

#[test]
fn precedence_comparison_over_term() {
    assert_eq!(run_ok("print(1 + 1 < 1 + 3);"), "true \n");
}

#[test]
fn shadowing_inner_block_hides_then_restores() {
    let out = run_ok("var x=1; { var x=2; print(x); } print(x);");
    assert_eq!(out, "2 \n1 \n");
}

#[test]
fn closure_captures_defining_scope() {
    let src = "fun counter() { var n = 0; fun inc() { n = n + 1; return n; } return inc; }\
               var c = counter();\
               print(c()); print(c()); print(c());";
    assert_eq!(run_ok(src), "1 \n2 \n3 \n");
}

#[test]
fn closures_do_not_share_between_instances() {
    let src = "fun counter() { var n = 0; fun inc() { n = n + 1; return n; } return inc; }\
               var a = counter(); var b = counter();\
               print(a()); print(a()); print(b());";
    assert_eq!(run_ok(src), "1 \n2 \n1 \n");
}

#[test]
fn and_short_circuits_without_side_effect() {
    let src = "var called = 0; fun f() { called = 1; return true; }\
               var r = false and f(); print(called); print(r);";
    assert_eq!(run_ok(src), "0 \nfalse \n");
}

#[test]
fn or_short_circuits_without_side_effect() {
    let src = "var called = 0; fun f() { called = 1; return false; }\
               var r = true or f(); print(called); print(r);";
    assert_eq!(run_ok(src), "0 \ntrue \n");
}

#[test]
fn and_evaluates_right_when_left_truthy() {
    let src = "var called = 0; fun f() { called = 1; return 7; }\
               var r = true and f(); print(called); print(r);";
    assert_eq!(run_ok(src), "1 \n7 \n");
}

#[test]
fn division_by_zero_is_a_typed_error() {
    let (r, out) = run("print(1/0);");
    assert_eq!(r, Err(RuntimeError::DivisionByZero));
    assert_eq!(out, "");
}

#[test]
fn round_trip_two_fresh_runs_are_identical() {
    let src = "var x = 1; fun f(a) { return a * 2; } while (x < 9) { x = f(x) + 1; }\
               print(x); print(clock()); print(\"done\");";
    let first = run_ok(src);
    let second = run_ok(src);
    assert_eq!(first, second);
}

#[test]
fn factorial_by_recursion() {
    let src = "fun fact(n) { if (n < 1) { return 1; } return n * fact(n - 1); } print(fact(5));";
    assert_eq!(run_ok(src), "120 \n");
}

#[test]
fn factorial_by_while_loop() {
    let src = "var i = 1; var acc = 1; while (i < 6) { acc = acc * i; i = i + 1; } print(acc);";
    assert_eq!(run_ok(src), "120 \n");
}

#[test]
fn for_loop_desugars_and_runs() {
    assert_eq!(run_ok("for (var i = 0; i < 3; i = i + 1) { print(i); }"), "0 \n1 \n2 \n");
}

#[test]
fn return_unwinds_nested_blocks_and_loops() {
    let src = "fun f() { while (true) { if (true) { { return 7; } } } } print(f());";
    assert_eq!(run_ok(src), "7 \n");
}

#[test]
fn function_without_return_yields_null() {
    assert_eq!(run_ok("fun f() { 1 + 1; } print(f());"), "Null \n");
}

#[test]
fn undefined_variable_read_fails() {
    let (r, _) = run("print(y);");
    assert_eq!(r, Err(RuntimeError::UndefinedVariable));
}

#[test]
fn undefined_variable_assignment_fails() {
    let (r, _) = run("y = 1;");
    assert_eq!(r, Err(RuntimeError::UndefinedVariable));
}

#[test]
fn calling_a_number_fails() {
    let (r, _) = run("var x = 1; x();");
    assert_eq!(r, Err(RuntimeError::NotCallable));
}

#[test]
fn wrong_arity_fails() {
    let (r, _) = run("fun f(a) { return a; } f(1, 2);");
    assert_eq!(r, Err(RuntimeError::ArityMismatch));
}

#[test]
fn type_mismatch_on_null_addition() {
    let (r, _) = run("print(nil + 1);");
    assert_eq!(r, Err(RuntimeError::TypeMismatch));
}

#[test]
fn string_concatenation_and_numeric_sides() {
    assert_eq!(run_ok("print(\"ab\" + \"cd\");"), "abcd \n");
    assert_eq!(run_ok("print(\"n=\" + 2);"), "n=2 \n");
    assert_eq!(run_ok("print(1 + \"x\");"), "1x \n");
}

#[test]
fn booleans_participate_as_numbers() {
    assert_eq!(run_ok("print(true + true);"), "2 \n");
    assert_eq!(run_ok("print(true + 2);"), "3 \n");
}

#[test]
fn equality_is_structural_and_cross_variant_false() {
    assert_eq!(run_ok("print(1 == 1); print(1 == true); print(nil == nil);"), "true \nfalse \ntrue \n");
    assert_eq!(run_ok("print(1 != 2);"), "true \n");
}

#[test]
fn unary_operators() {
    assert_eq!(run_ok("print(-3); print(!true); print(!0);"), "-3 \nfalse \ntrue \n");
}

#[test]
fn fractional_literals_and_division() {
    assert_eq!(run_ok("print(12.5 + 0.5);"), "13 \n");
    assert_eq!(run_ok("print(1/2);"), "0.5 \n");
    assert_eq!(run_ok("print(7/2);"), "3.5 \n");
}

#[test]
fn clock_yields_a_nonnegative_number() {
    assert_eq!(run_ok("print(clock() >= 0);"), "true \n");
}

#[test]
fn print_takes_several_arguments() {
    assert_eq!(run_ok("print(1, \"a\", true);"), "1 a true \n");
}

#[test]
fn repl_mode_keeps_declarations_between_programs() {
    let first = code_to_stblock("var a = 40;").expect("parses");
    let second = code_to_stblock("print(a + 2);").expect("parses");
    let mut interp = Interpreter::new();
    interp.repl_mode();
    assert!(interp.interpret(&first).is_ok());
    assert!(interp.interpret(&second).is_ok());
    assert_eq!(interp.output_string(), "42 \n");
}

#[test]
fn runtime_error_stops_only_from_that_point() {
    let (r, out) = run("print(1); print(1/0); print(2);");
    assert_eq!(r, Err(RuntimeError::DivisionByZero));
    assert_eq!(out, "1 \n");
}

#[test]
fn unbounded_recursion_fails_with_the_budget_fault() {
    let (r, _) = run("fun f() { return f(); } f();");
    assert_eq!(r, Err(RuntimeError::OutOfFuel));
}

#[test]
fn failing_block_still_pops_its_scope() {
    let mut interp = Interpreter::new();
    let broken = code_to_stblock("{ var hidden = 5; 1/0; }").expect("parses");
    assert_eq!(interp.interpret(&broken), Err(RuntimeError::DivisionByZero));
    // The block's scope is gone: its binding is not visible afterwards.
    let read = code_to_stblock("print(hidden);").expect("parses");
    assert_eq!(interp.interpret(&read), Err(RuntimeError::UndefinedVariable));
    // And later statements run in the restored entry scope.
    let fresh = code_to_stblock("var g = 7; print(g);").expect("parses");
    assert!(interp.interpret(&fresh).is_ok());
    assert_eq!(interp.output_string(), "7 \n");
}

#[test]
fn failing_call_still_pops_its_frame() {
    let mut interp = Interpreter::new();
    let broken = code_to_stblock("fun f() { var secret = 3; 1/0; } f();").expect("parses");
    assert_eq!(interp.interpret(&broken), Err(RuntimeError::DivisionByZero));
    let read = code_to_stblock("print(secret);").expect("parses");
    assert_eq!(interp.interpret(&read), Err(RuntimeError::UndefinedVariable));
    let ok = code_to_stblock("print(1);").expect("parses");
    assert!(interp.interpret(&ok).is_ok());
    assert_eq!(interp.output_string(), "1 \n");
}

#[test]
fn caller_chosen_budget_bounds_execution() {
    let src = "fun fact(n) { if (n < 1) { return 1; } return n * fact(n - 1); } print(fact(5));";
    let prog = code_to_stblock(src).expect("parses");
    let mut tight = Interpreter::new();
    assert_eq!(tight.interpret_with_depth(&prog, 8), Err(RuntimeError::OutOfFuel));
    let mut roomy = Interpreter::new();
    assert!(roomy.interpret_with_depth(&prog, 1000).is_ok());
    assert_eq!(roomy.output_string(), "120 \n");
}
