use lox::value::Value;
use lox::vm::{Action, ArithOp, InterpretResult, Phase, VM};

struct Outcome {
    output: Vec<String>,
    errors: Vec<String>,
    result: InterpretResult,
}

fn show(value: &Value) -> String {
    match value {
        Value::Number(bits) => format!("{}", f64::from_bits(*bits)),
        other => String::from_utf8(other.text().unwrap()).unwrap(),
    }
}

fn arith(op: ArithOp, a: u64, b: u64) -> u64 {
    let (a, b) = (f64::from_bits(a), f64::from_bits(b));
    let result = match op {
        ArithOp::Add => a + b,
        ArithOp::Sub => a - b,
        ArithOp::Mul => a * b,
        ArithOp::Div => a / b,
    };
    result.to_bits()
}

fn interpret(vm: &mut VM, source: &str) -> Outcome {
    let reported = vm.errors.len();
    let mut output = Vec::new();
    let mut action = vm.interpret(source.as_bytes());
    let result = loop {
        action = match action {
            Action::Done(result) => break result,
            Action::Print(value) => {
                output.push(show(&value));
                vm.run()
            }
            Action::Literal(text) => {
                let number: f64 = String::from_utf8(text).unwrap().parse().unwrap();
                vm.resume(number.to_bits())
            }
            Action::Arith(op, a, b) => vm.resume(arith(op, a, b)),
        };
    };
    let errors = vm.errors[reported..]
        .iter()
        .map(|line| String::from_utf8(line.clone()).unwrap())
        .collect();
    Outcome { output, errors, result }
}

fn run(source: &str) -> Outcome {
    interpret(&mut VM::new(), source)
}

#[test]
fn arithmetic_follows_precedence() {
    let outcome = run("print 1 + 2 * 3;");
    assert_eq!(outcome.output, vec!["7"]);
    assert_eq!(outcome.result, InterpretResult::Success);
    assert!(outcome.errors.is_empty());
}

#[test]
fn strings_concatenate() {
    let outcome = run("print \"foo\" + \"bar\";");
    assert_eq!(outcome.output, vec!["foobar"]);
    assert_eq!(outcome.result, InterpretResult::Success);
}

#[test]
fn globals_are_defined_assigned_and_read() {
    let outcome = run("var a = 1; a = a + 2; print a;");
    assert_eq!(outcome.output, vec!["3"]);
    assert_eq!(outcome.result, InterpretResult::Success);
}

#[test]
fn inner_local_shadows_outer() {
    let outcome = run("{ var x = 10; { var x = x + 1; print x; } print x; }");
    assert_eq!(outcome.output, vec!["11", "10"]);
    assert_eq!(outcome.result, InterpretResult::Success);
}

#[test]
fn not_follows_truthiness() {
    let outcome = run("print !nil; print !true; print !0;");
    assert_eq!(outcome.output, vec!["true", "false", "false"]);
    assert_eq!(outcome.result, InterpretResult::Success);
}

#[test]
fn equality_across_kinds_and_inequality() {
    assert_eq!(run("print \"x\" == 1;").output, vec!["false"]);
    assert_eq!(run("print 1 != 2;").output, vec!["true"]);
}

#[test]
fn negating_a_string_is_a_runtime_error() {
    let outcome = run("-\"a\";");
    assert_eq!(outcome.result, InterpretResult::RuntimeError);
    assert_eq!(outcome.errors, vec!["Operand must be a number.", "[line 1] in script"]);
    assert!(outcome.output.is_empty());
}

#[test]
fn missing_variable_name_is_a_compile_error() {
    let outcome = run("var ;");
    assert_eq!(outcome.result, InterpretResult::CompileError);
    assert_eq!(outcome.errors, vec!["[line 1] Error at ';': Expect variable name."]);
    assert!(outcome.output.is_empty());
}

#[test]
fn globals_persist_across_programs() {
    let mut vm = VM::new();
    assert_eq!(interpret(&mut vm, "var a = \"kept\";").result, InterpretResult::Success);
    let outcome = interpret(&mut vm, "print a;");
    assert_eq!(outcome.output, vec!["kept"]);
    assert_eq!(vm.phase, Phase::Idle);
}

#[test]
fn undefined_global_read_is_a_runtime_error() {
    let outcome = run("print 1;\nprint missing;");
    assert_eq!(outcome.output, vec!["1"]);
    assert_eq!(outcome.result, InterpretResult::RuntimeError);
    assert_eq!(outcome.errors, vec!["Undefined variable 'missing'.", "[line 2] in script"]);
}

#[test]
fn undefined_global_assignment_is_a_runtime_error() {
    let outcome = run("missing = 1;");
    assert_eq!(outcome.result, InterpretResult::RuntimeError);
    assert_eq!(outcome.errors, vec!["Undefined variable 'missing'.", "[line 1] in script"]);
}

#[test]
fn redefining_a_global_is_silent() {
    let outcome = run("var a = 1; var a = 2; print a;");
    assert_eq!(outcome.output, vec!["2"]);
    assert!(outcome.errors.is_empty());
}

#[test]
fn comparison_operators() {
    let outcome = run("print 1 < 2; print 2 <= 2; print 1 > 2; print 2 >= 3; print 1 == 1;");
    assert_eq!(outcome.output, vec!["true", "true", "false", "false", "true"]);
}

#[test]
fn comparing_non_numbers_is_a_runtime_error() {
    let outcome = run("print 1 < \"a\";");
    assert_eq!(outcome.result, InterpretResult::RuntimeError);
    assert_eq!(outcome.errors, vec!["Operands must be numbers.", "[line 1] in script"]);
}

#[test]
fn adding_number_and_string_is_a_runtime_error() {
    let outcome = run("print 1 + \"a\";");
    assert_eq!(outcome.result, InterpretResult::RuntimeError);
    assert_eq!(
        outcome.errors,
        vec!["Operands must be two numbers or two strings.", "[line 1] in script"]
    );
}

#[test]
fn subtraction_multiplication_and_division() {
    let outcome = run("print 7 - 2; print 3 * 4; print 1 / 4; print -(2 + 3); print (1 + 2) * 3;");
    assert_eq!(outcome.output, vec!["5", "12", "0.25", "-5", "9"]);
}

#[test]
fn nan_is_not_equal_to_itself() {
    let outcome = run("var n = 0 / 0; print n == n; print n != n; print n < 1; print n > 1;");
    assert_eq!(outcome.output, vec!["false", "true", "false", "false"]);
}

#[test]
fn zero_equals_negative_zero() {
    let outcome = run("print 0 == -0; print -0 < 0; print -1 < 0; print -2 < -1; print -1 > -2;");
    assert_eq!(outcome.output, vec!["true", "false", "true", "true", "true"]);
}

#[test]
fn uninitialized_variable_is_nil() {
    let outcome = run("var a; print a; { var b; print b; }");
    assert_eq!(outcome.output, vec!["nil", "nil"]);
}

#[test]
fn locals_are_assigned_in_their_slots() {
    let outcome = run("{ var a = 1; var b = 2; a = b + 3; print a; print b; { var c = a + b; print c; } }");
    assert_eq!(outcome.output, vec!["5", "2", "7"]);
}

#[test]
fn local_shadows_global() {
    let outcome = run("var a = \"global\"; { var a = \"local\"; print a; } print a;");
    assert_eq!(outcome.output, vec!["local", "global"]);
}

#[test]
fn redeclaring_a_local_in_the_same_block_is_an_error() {
    let outcome = run("{ var a = 1; var a = 2; }");
    assert_eq!(outcome.result, InterpretResult::CompileError);
    assert_eq!(
        outcome.errors,
        vec!["[line 1] Error at 'a': Already a variable with this name in this scope."]
    );
}

#[test]
fn missing_expression_is_reported() {
    let outcome = run("print ;");
    assert_eq!(outcome.result, InterpretResult::CompileError);
    assert_eq!(outcome.errors, vec!["[line 1] Error at ';': Expect expression."]);
}

#[test]
fn invalid_assignment_target_is_reported() {
    let outcome = run("var a = 1; var b = 2; a + b = 3;");
    assert_eq!(outcome.result, InterpretResult::CompileError);
    assert_eq!(outcome.errors, vec!["[line 1] Error at '=': Invalid assignment target."]);
}

#[test]
fn error_at_end_of_input() {
    let outcome = run("print 1");
    assert_eq!(outcome.result, InterpretResult::CompileError);
    assert_eq!(outcome.errors, vec!["[line 1] Error at end: Expect ';' after value."]);
}

#[test]
fn unterminated_block_is_reported() {
    let outcome = run("{ print 1;");
    assert_eq!(outcome.errors, vec!["[line 1] Error at end: Expect '}' after block."]);
}

#[test]
fn lexical_errors_are_reported_without_a_place() {
    let outcome = run("print @;");
    assert_eq!(outcome.result, InterpretResult::CompileError);
    assert_eq!(outcome.errors[0], "[line 1] Error: Unexpected character.");
    let outcome = run("print \"open;\n");
    assert_eq!(outcome.errors[0], "[line 2] Error: Unterminated string.");
}

#[test]
fn panic_mode_suppresses_until_the_next_statement() {
    let outcome = run("print 1 +; print 2 +;\nvar ;");
    assert_eq!(outcome.result, InterpretResult::CompileError);
    assert_eq!(
        outcome.errors,
        vec![
            "[line 1] Error at ';': Expect expression.",
            "[line 1] Error at ';': Expect expression.",
            "[line 2] Error at ';': Expect variable name.",
        ]
    );
}

#[test]
fn a_failed_compile_leaves_the_machine_as_it_was() {
    let mut vm = VM::new();
    interpret(&mut vm, "var a = 1;");
    let outcome = interpret(&mut vm, "var a = ; print a;");
    assert_eq!(outcome.result, InterpretResult::CompileError);
    assert!(outcome.output.is_empty());
    assert_eq!(interpret(&mut vm, "print a;").output, vec!["1"]);
}

#[test]
fn runtime_error_line_is_that_of_the_instruction() {
    let outcome = run("var a = 1;\nvar b = \"s\";\n\nprint a - b;");
    assert_eq!(outcome.errors, vec!["Operands must be numbers.", "[line 4] in script"]);
}

#[test]
fn comments_and_white_space_are_skipped() {
    let outcome = run("// nothing here\nprint 1; // one\n\t print 2;\r\n// the end");
    assert_eq!(outcome.output, vec!["1", "2"]);
}

#[test]
fn strings_may_span_lines() {
    let outcome = run("print \"a\nb\";");
    assert_eq!(outcome.output, vec!["a\nb"]);
}

#[test]
fn equal_strings_are_equal_by_content() {
    let outcome = run("print \"ab\" == \"a\" + \"b\"; print \"a\" == \"b\"; print nil == nil; print nil == false;");
    assert_eq!(outcome.output, vec!["true", "false", "true", "false"]);
}

#[test]
fn double_negation_gives_truthiness() {
    let outcome = run("print !!nil; print !!false; print !!0; print !!\"\"; print !!true;");
    assert_eq!(outcome.output, vec!["false", "false", "true", "true", "true"]);
}

#[test]
fn empty_source_runs_to_success() {
    let outcome = run("");
    assert_eq!(outcome.result, InterpretResult::Success);
    assert!(outcome.output.is_empty());
    assert!(outcome.errors.is_empty());
}

#[test]
fn too_many_constants_is_reported() {
    let mut source = String::new();
    for i in 0..257 {
        source.push_str(&format!("print {};", i));
    }
    let outcome = run(&source);
    assert_eq!(outcome.result, InterpretResult::CompileError);
    assert_eq!(outcome.errors, vec!["[line 1] Error at '256': Too many constants in one chunk."]);
}

#[test]
fn two_hundred_and_fifty_six_constants_fit() {
    let mut source = String::new();
    for i in 0..256 {
        source.push_str(&format!("print {};", i));
    }
    let outcome = run(&source);
    assert_eq!(outcome.result, InterpretResult::Success);
    assert_eq!(outcome.output.len(), 256);
    assert_eq!(outcome.output[255], "255");
}

#[test]
fn too_many_locals_is_reported() {
    let mut source = String::from("{");
    for i in 0..257 {
        source.push_str(&format!("var v{};", i));
    }
    source.push('}');
    let outcome = run(&source);
    assert_eq!(outcome.result, InterpretResult::CompileError);
    assert_eq!(
        outcome.errors,
        vec!["[line 1] Error at 'v256': Too many local variables in function."]
    );
}

#[test]
fn two_hundred_and_fifty_six_locals_fit() {
    let mut source = String::from("{");
    for i in 0..256 {
        source.push_str(&format!("var v{} = {};", i, i % 7));
    }
    source.push_str("print v255; print v0; }");
    let outcome = run(&source);
    assert_eq!(outcome.result, InterpretResult::Success);
    assert_eq!(outcome.output, vec!["3", "0"]);
}
