//! End-to-end runs of whole sources: each test interprets a program on a
//! fresh machine and checks the standard output, the exit code the
//! driver would map the result to, and the error output.

use rlox::vm::{InterpretError, VM};

fn run_lox(source: &str) -> (String, i32, String) {
    let mut vm = VM::new();
    let result = vm.interpret(source.to_string());
    let code = match result {
        Ok(()) => 0,
        Err(InterpretError::CompileError) => 65,
        Err(InterpretError::RuntimeError) => 70,
    };
    (vm.stdout.clone(), code, vm.stderr.clone())
}

#[test]
fn main_test() {
    VM::new_and_run("".to_string()).unwrap();
}

#[test]
fn unicode_comments_test() {
    let (out, code, _) = run_lox("// héllo wörld ✓ comment\nprint \"ok\"; // ünïcode\n");
    assert_eq!(out, "ok\n");
    assert_eq!(code, 0);
}

#[test]
fn expressions() {
    let (out, code, _) = run_lox("print (1 + 2 * 3) - 2;\n");
    assert_eq!(out, "5\n");
    assert_eq!(code, 0);
}

#[test]
fn plus_operator() {
    let (out, code, err) = run_lox("print 1 + 2;\nprint \"a\" + \"b\";\nprint 1 + \"b\";\n");
    assert_eq!(out, "3\nab\n");
    assert_eq!(code, 70);
    assert_eq!(err, "Operands must be two numbers or two strings.\n[line 3] in script\n");
}

#[test]
fn strings() {
    let (out, code, _) = run_lox(
        "print \"a\" == \"a\";\nprint \"ab\" == \"a\" + \"b\";\nprint \"a\" == \"b\";\n",
    );
    assert_eq!(out, "true\ntrue\nfalse\n");
    assert_eq!(code, 0);
}

#[test]
fn assignment() {
    let (out, code, _) = run_lox(
        "{ var a = 1; print a; { var a = 2; print a; a = 3; print a; } print a; }\n",
    );
    assert_eq!(out, "1\n2\n3\n1\n");
    assert_eq!(code, 0);
}

#[test]
fn assign_error_test() {
    let (out, code, err) = run_lox("a + b = c;\n");
    assert_eq!(out, "");
    assert_eq!(code, 65);
    assert_eq!(err, "[line 1] Error at '=': Invalid assignment target.\n");
}

#[test]
fn locals() {
    let source = "{\n  var x = 1;\n  var x = 2;\n}\n{\n  var x = x;\n}\n";
    let (out, code, err) = run_lox(source);
    assert_eq!(out, "");
    assert_eq!(code, 65);
    assert_eq!(
        err,
        "[line 3] Error at 'x': Already a variable with this name in this scope.\n[line 6] Error at 'x': Can't read local variable in its own initializer.\n"
    );
}

#[test]
fn logical() {
    let source = "print nil or \"one\";\nprint nil and \"x\";\nprint 2 and false;\nprint true and 3;\nprint \"zero\" or \"x\";\nprint nil or \"nothing\";\nprint 1 and \"two\";\nprint nil and nil;\nprint 3 or nil;\nprint nil or nil;\n";
    let (out, code, _) = run_lox(source);
    assert_eq!(out, "one\nnil\nfalse\n3\nzero\nnothing\ntwo\nnil\n3\nnil\n");
    assert_eq!(code, 0);
}

#[test]
fn control_flow() {
    let source = "if (1 > 2) print \"yes\"; else print \"false\";\nif (true) print \"always\";\nfor (var i = 0; i < 3; i = i + 1) print i;\n";
    let (out, code, _) = run_lox(source);
    assert_eq!(out, "false\nalways\n0\n1\n2\n");
    assert_eq!(code, 0);
}

#[test]
fn print_number_sum() {
    let (out, code, _) = run_lox("print 1 + 2;");
    assert_eq!(out, "3\n");
    assert_eq!(code, 0);
}

#[test]
fn print_string_concat() {
    let (out, code, _) = run_lox("print \"a\" + \"b\";");
    assert_eq!(out, "ab\n");
    assert_eq!(code, 0);
}

#[test]
fn mixed_add_is_runtime_error() {
    let (out, code, err) = run_lox("print 1 + \"b\";");
    assert_eq!(out, "");
    assert_eq!(code, 70);
    assert_eq!(err, "Operands must be two numbers or two strings.\n[line 1] in script\n");
}

#[test]
fn global_assignment() {
    let (out, code, _) = run_lox("var a = 1; a = 2; print a;");
    assert_eq!(out, "2\n");
    assert_eq!(code, 0);
}

#[test]
fn shadowing_blocks() {
    let (out, code, _) = run_lox("{ var x=1; { var x=2; print x; } print x; }");
    assert_eq!(out, "2\n1\n");
    assert_eq!(code, 0);
}

#[test]
fn redeclare_in_same_scope_is_error() {
    let (_, code, err) = run_lox("{ var x=1; var x=2; }");
    assert_eq!(code, 65);
    assert_eq!(err, "[line 1] Error at 'x': Already a variable with this name in this scope.\n");
}

#[test]
fn while_loop() {
    let (out, code, _) = run_lox("var i=0; while (i<3) { print i; i = i+1; }");
    assert_eq!(out, "0\n1\n2\n");
    assert_eq!(code, 0);
}

#[test]
fn for_loop() {
    let (out, code, _) = run_lox("for (var i=0;i<2;i=i+1) print i;");
    assert_eq!(out, "0\n1\n");
    assert_eq!(code, 0);
}

#[test]
fn short_circuit() {
    let (out, code, _) = run_lox("print nil or \"one\"; print nil and \"x\"; print true and 3;");
    assert_eq!(out, "one\nnil\n3\n");
    assert_eq!(code, 0);
}

#[test]
fn undefined_global_read() {
    let (out, code, err) = run_lox("print q;");
    assert_eq!(out, "");
    assert_eq!(code, 70);
    assert_eq!(err, "Undefined variable 'q'.\n[line 1] in script\n");
}

#[test]
fn undefined_global_write() {
    let (_, code, err) = run_lox("q = 1;");
    assert_eq!(code, 70);
    assert_eq!(err, "Undefined variable 'q'.\n[line 1] in script\n");
}

#[test]
fn missing_expression_error() {
    let (_, code, err) = run_lox("print ;");
    assert_eq!(code, 65);
    assert_eq!(err, "[line 1] Error at ';': Expect expression.\n");
}

#[test]
fn unterminated_string_error() {
    let (_, code, err) = run_lox("print \"abc;");
    assert_eq!(code, 65);
    assert_eq!(err, "[line 1] Error: Unterminated string.\n");
}

#[test]
fn unexpected_character_error() {
    let (_, code, err) = run_lox("print @;");
    assert_eq!(code, 65);
    assert!(err.starts_with("[line 1] Error: Unexpected character.\n"), "stderr was: {err}");
}

#[test]
fn fractions_and_division() {
    let (out, code, _) = run_lox("print 2.5; print 10 / 4; print 1.5 + 1.25;");
    assert_eq!(out, "2.5\n2.5\n2.75\n");
    assert_eq!(code, 0);
}

#[test]
fn negation_and_not() {
    let (out, code, _) = run_lox("print -(-5); print -5; print !nil; print !0;");
    assert_eq!(out, "5\n-5\ntrue\nfalse\n");
    assert_eq!(code, 0);
}

#[test]
fn comparisons() {
    let (out, code, _) = run_lox("print 1 < 2; print 2 <= 2; print 3 >= 4; print 1 != 2;");
    assert_eq!(out, "true\ntrue\nfalse\ntrue\n");
    assert_eq!(code, 0);
}

#[test]
fn negate_non_number_is_runtime_error() {
    let (_, code, err) = run_lox("print -\"a\";");
    assert_eq!(code, 70);
    assert_eq!(err, "Operand must be a number.\n[line 1] in script\n");
}

#[test]
fn arithmetic_on_strings_is_runtime_error() {
    let (_, code, err) = run_lox("print \"a\" * \"b\";");
    assert_eq!(code, 70);
    assert_eq!(err, "Operands must be numbers.\n[line 1] in script\n");
}

#[test]
fn globals_persist_across_interprets() {
    let mut vm = VM::new();
    vm.interpret("var a = 41;".to_string()).unwrap();
    vm.garbage_collect();
    vm.interpret("print a + 1;".to_string()).unwrap();
    assert_eq!(vm.stdout, "42\n");
}

#[test]
fn equality_mixed_tags() {
    let (out, code, _) = run_lox("print 1 == \"1\"; print nil == nil; print nil == false;");
    assert_eq!(out, "false\ntrue\nfalse\n");
    assert_eq!(code, 0);
}

#[test]
fn interning_makes_equal_literals_identical() {
    let (out, code, _) = run_lox("var a = \"x\"; var b = \"x\"; print a == b;");
    assert_eq!(out, "true\n");
    assert_eq!(code, 0);
}

#[test]
fn collected_interner_keeps_referenced_strings() {
    let mut vm = VM::new();
    vm.interpret("var s = \"he\" + \"llo\";".to_string()).unwrap();
    vm.garbage_collect();
    vm.interpret("print s + \"!\";".to_string()).unwrap();
    assert_eq!(vm.stdout, "hello!\n");
}

#[test]
fn leading_operator_is_error() {
    let (_, code, err) = run_lox("+ 1;");
    assert_eq!(code, 65);
    assert_eq!(err, "[line 1] Error at '+': Expect expression.\n");
}

#[test]
fn trivia_only_source_compiles() {
    let (out, code, err) = run_lox("  // nothing here\n\t\n");
    assert_eq!(out, "");
    assert_eq!(code, 0);
    assert_eq!(err, "");
}
