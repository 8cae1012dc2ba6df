//! End-to-end tests of the evaluator: scripts are lexed and run against a
//! fresh context, and the resulting stack, variables and printed output are
//! inspected.

use knusper::error::EvalError;
use knusper::interp::InterpreterState;
use knusper::lexer::tokenize;
use knusper::value::Value;

/// A host that answers no native call.
fn no_natives(_name: String, _arg: Value) -> Value {
    Value::NoValue
}

/// Lex a script, closing it with the newline a file would end in (a token
/// still open at end of input is a lex error).
fn lex_script(src: &str) -> Vec<Value> {
    let closed = format!("{}\n", src);
    tokenize(&closed).expect("script must lex")
}

/// Lex and run a script with no native functions; the run must succeed.
fn run_script(src: &str) -> InterpreterState {
    let tokens = lex_script(src);
    let mut state = InterpreterState::new(Vec::new());
    state.run(&tokens, &no_natives, 64).expect("script must run");
    state
}

/// Lex and run a script with no native functions; the run must fail.
fn run_script_err(src: &str) -> EvalError {
    let tokens = lex_script(src);
    let mut state = InterpreterState::new(Vec::new());
    state
        .run(&tokens, &no_natives, 64)
        .expect_err("script must fail")
}

fn top_int(state: &InterpreterState) -> i32 {
    match state.stack.last() {
        Some(Value::Int(i)) => *i,
        other => panic!("expected an integer on top of the stack, got {:?}", other),
    }
}

#[test]
fn arithmetic_add() {
    let state = run_script("2 3 +");
    assert_eq!(state.stack.len(), 1);
    assert_eq!(top_int(&state), 5);
}

#[test]
fn arithmetic_div_truncates() {
    let state = run_script("10 3 /");
    assert_eq!(top_int(&state), 3);
}

#[test]
fn arithmetic_sub_operand_order() {
    // right operand is top of stack: 2 - 1, not 1 - 2
    let state = run_script("2 1 -");
    assert_eq!(top_int(&state), 1);
}

#[test]
fn arithmetic_mul_and_mod() {
    assert_eq!(top_int(&run_script("6 7 *")), 42);
    assert_eq!(top_int(&run_script("17 5 %")), 2);
}

#[test]
fn arithmetic_negative_div_truncates_toward_zero() {
    assert_eq!(top_int(&run_script("0 7 - 2 /")), -3);
    assert_eq!(top_int(&run_script("0 7 - 3 %")), -1);
}

#[test]
fn arithmetic_division_by_zero() {
    assert_eq!(run_script_err("1 0 /"), EvalError::ArithmeticError);
    assert_eq!(run_script_err("1 0 %"), EvalError::ArithmeticError);
}

#[test]
fn arithmetic_overflow_is_an_error() {
    assert_eq!(
        run_script_err("2147483647 1 +"),
        EvalError::ArithmeticError
    );
}

#[test]
fn invert_is_c_style() {
    assert_eq!(top_int(&run_script("0 !")), 1);
    assert_eq!(top_int(&run_script("5 !")), 0);
}

#[test]
fn stack_underflow() {
    assert_eq!(run_script_err("+"), EvalError::StackUnderflow);
}

#[test]
fn assign_target_must_be_identifier() {
    assert_eq!(run_script_err("5 3 ="), EvalError::TypeMismatch);
}

#[test]
fn assign_to_undeclared_name_fails() {
    assert_eq!(run_script_err("x 3 ="), EvalError::UndefinedVariable);
}

#[test]
fn declare_assign_read() {
    let state = run_script("x let 41 1 + = x 0 +");
    assert_eq!(top_int(&state), 42);
}

#[test]
fn compound_assignment_reads_and_writes() {
    let state = run_script("x let 5 = x 3 += x 0 +");
    assert_eq!(top_int(&state), 8);
    let state = run_script("x let 10 = x 4 -= x 0 +");
    assert_eq!(top_int(&state), 6);
    let state = run_script("x let 6 = x 7 *= x 0 +");
    assert_eq!(top_int(&state), 42);
    let state = run_script("x let 9 = x 2 /= x 0 +");
    assert_eq!(top_int(&state), 4);
}

#[test]
fn undefined_variable_on_read() {
    assert_eq!(run_script_err("y println"), EvalError::UndefinedVariable);
}

#[test]
fn unmatched_closer_is_an_error() {
    assert_eq!(run_script_err(")"), EvalError::UnmatchedDelimiter);
    assert_eq!(run_script_err("}"), EvalError::UnmatchedDelimiter);
    assert_eq!(run_script_err("]"), EvalError::UnmatchedDelimiter);
}

#[test]
fn grouping_leaves_no_open_frame() {
    let state = run_script("( 1 2 ) { 3 } [ 4 5 ]");
    assert!(state.delims.is_empty());
    assert_eq!(state.stack.len(), 3);
}

#[test]
fn array_literal_is_evaluated_eagerly() {
    let state = run_script("[ 1 2 + 10 ]");
    match state.stack.last() {
        Some(Value::Array(a)) => {
            assert_eq!(a.len(), 2);
            assert!(matches!(a[0], Value::Int(3)));
            assert!(matches!(a[1], Value::Int(10)));
        }
        other => panic!("expected an array, got {:?}", other),
    }
}

#[test]
fn indexing_array() {
    let state = run_script("[10 20 30] 1 #");
    assert_eq!(top_int(&state), 20);
}

#[test]
fn indexing_out_of_bounds() {
    assert_eq!(run_script_err("[10 20 30] 3 #"), EvalError::IndexOutOfBounds);
}

#[test]
fn indexing_string_yields_char() {
    let state = run_script("\"abc\" 1 #");
    assert!(matches!(state.stack.last(), Some(Value::Char('b'))));
}

#[test]
fn indexing_non_container_fails() {
    assert_eq!(run_script_err("7 0 #"), EvalError::TypeMismatch);
}

#[test]
fn print_renders_without_newline() {
    let state = run_script("\"hi\" print");
    assert_eq!(state.output, "hi");
}

#[test]
fn println_renders_integer() {
    let state = run_script("x let 6 = x println");
    assert_eq!(state.output, "6\n");
}

#[test]
fn println_evaluates_tuple_contents() {
    let state = run_script("( 1 2 + 7 ) println");
    assert_eq!(state.output, "(3 7)\n");
}

#[test]
fn println_renders_array_listing() {
    let state = run_script("[1 2] println");
    assert_eq!(state.output, "[\n\t1 2\n]\n");
}

#[test]
fn scoping_copy_out_after_loop() {
    // a loop-body mutation of a pre-existing local persists after the loop
    let state = run_script("x let 0 = [1 2 3] i { x x i + = } for x println");
    assert_eq!(state.output, "6\n");
}

#[test]
fn loop_variable_is_discarded_after_loop() {
    let state = run_script("[1 2 3] i { } for");
    let tokens = lex_script("i println");
    let mut state = state;
    assert_eq!(
        state.run(&tokens, &no_natives, 64),
        Err(EvalError::UndefinedVariable)
    );
}

#[test]
fn conditional_false_does_not_merge() {
    // an assignment inside an `if` body whose condition is 0 is never applied
    let state = run_script("x let 1 = 0 { x 7 = } if x println");
    assert_eq!(state.output, "1\n");
}

#[test]
fn conditional_true_merges() {
    let state = run_script("x let 1 = 1 { x 7 = } if x println");
    assert_eq!(state.output, "7\n");
}

#[test]
fn conditional_locals_are_not_exported() {
    // copy-out discards names that exist only in the nested context, so a
    // local first declared inside the body stays unknown outside even when
    // the body ran
    let err = run_script_err("1 { y let 5 = } if y println");
    assert_eq!(err, EvalError::UndefinedVariable);
}

#[test]
fn conditional_false_local_stays_undefined() {
    let err = run_script_err("0 { y let 5 = } if y println");
    assert_eq!(err, EvalError::UndefinedVariable);
}

#[test]
fn local_shadows_global() {
    // a name may exist in both tables at once; the local takes precedence on
    // lookup and on assignment
    let state = run_script("g global 1 = g let 2 = g println");
    assert_eq!(state.output, "2\n");
    let state = run_script("g global 1 = g let 2 = g 5 = g println");
    assert_eq!(state.output, "5\n");
}

#[test]
fn function_definition_and_call() {
    let state = run_script("f let ( a b ) { g a b + = } fn = g global 0 = 1 2 f @ g println");
    assert_eq!(state.output, "3\n");
}

#[test]
fn function_arguments_bind_in_declaration_order() {
    // the first-declared parameter receives the value pushed first
    let state = run_script("f let ( a b ) { g a b - = } fn = g global 0 = 10 4 f @ g println");
    assert_eq!(state.output, "6\n");
}

#[test]
fn function_isolation_no_closure_over_caller_locals() {
    // a function body naming a caller local that is neither a parameter nor
    // a global fails with an undefined variable
    let err = run_script_err(
        "secret let 5 = f let ( ) { secret println } fn = f @",
    );
    assert_eq!(err, EvalError::UndefinedVariable);
}

#[test]
fn globals_propagate_out_of_function_calls() {
    let state = run_script("g global 1 = f let ( ) { g 2 = } fn = f @ g println");
    assert_eq!(state.output, "2\n");
}

#[test]
fn function_locals_do_not_leak() {
    let err = run_script_err("f let ( ) { t let 1 = } fn = f @ t println");
    assert_eq!(err, EvalError::UndefinedVariable);
}

#[test]
fn function_values_render_with_their_parameters() {
    let state = run_script("f let ( a b ) { } fn = f println");
    assert_eq!(state.output, "(fn: (a b))\n");
}

#[test]
fn call_of_non_callable_fails() {
    assert_eq!(run_script_err("5 @"), EvalError::TypeMismatch);
}

#[test]
fn native_bridge_double() {
    let tokens = lex_script("5 double @");
    let host = |name: String, arg: Value| -> Value {
        if name == "double" {
            match arg {
                Value::Int(i) => Value::Int(i * 2),
                _ => Value::NoValue,
            }
        } else {
            Value::NoValue
        }
    };
    let mut state = InterpreterState::new(vec!["double".to_string()]);
    state.run(&tokens, &host, 64).expect("run");
    assert_eq!(state.stack.len(), 1);
    assert!(matches!(state.stack[0], Value::Int(10)));
}

#[test]
fn native_call_on_empty_stack_passes_sentinel() {
    let tokens = lex_script("probe @");
    let host = |_name: String, arg: Value| -> Value {
        match arg {
            Value::NoValue => Value::Int(1),
            _ => Value::Int(0),
        }
    };
    let mut state = InterpreterState::new(vec!["probe".to_string()]);
    state.run(&tokens, &host, 64).expect("run");
    assert!(matches!(state.stack[0], Value::Int(1)));
}

#[test]
fn unknown_native_function_is_defensive() {
    let host = |_name: String, _arg: Value| -> Value { Value::NoValue };
    let mut state = InterpreterState::new(Vec::new());
    state.stack.push(Value::ExtFn("nope".to_string()));
    let tokens = vec![Value::Operation(knusper::value::Op::CallFn)];
    assert_eq!(
        state.run(&tokens, &host, 64),
        Err(EvalError::UnknownNativeFunction)
    );
}

#[test]
fn variables_shadow_native_names() {
    // identifier resolution checks variable tables before the native table
    let tokens = lex_script("double let 3 = double println");
    let host = |_name: String, _arg: Value| -> Value { Value::Int(-1) };
    let mut state = InterpreterState::new(vec!["double".to_string()]);
    state.run(&tokens, &host, 64).expect("run");
    assert_eq!(state.output, "3\n");
}

#[test]
fn unbounded_recursion_exhausts_fuel() {
    let err = run_script_err("f global ( ) { f @ } fn = f @");
    assert_eq!(err, EvalError::RecursionLimit);
}

#[test]
fn empty_script_runs() {
    let state = run_script("");
    assert!(state.stack.is_empty());
    assert!(state.delims.is_empty());
    assert_eq!(state.output, "");
}
