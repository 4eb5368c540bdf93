use minilang::builtins::Console;
use minilang::grammar::{enough_for, expression_at, skip_space_at, Input};
use minilang::interpreter::{eval, Evaluator};
use minilang::parser::{build_ast_from_expression, parse};
use minilang::value::Value;

fn eval_expression(source: &str) -> Result<Value, String> {
    let input = Input::new(source);
    let (pair, end) = expression_at(&input, 0, enough_for(&input)).expect("the text is an expression");
    assert_eq!(skip_space_at(&input, end), input.len());
    let ast = build_ast_from_expression(&pair);
    assert!(ast.is_evaluable());
    eval(&ast)
}

fn run_source(source: &str) -> (Result<Value, String>, String) {
    let ast = parse(source).expect("the source follows the grammar");
    assert!(ast.is_evaluable());
    let mut evaluator = Evaluator::new();
    let result = evaluator.run(&ast);
    let output = evaluator.console().output().to_string();
    (result, output)
}

fn run_with_input(source: &str, lines: &[&str]) -> (Result<Value, String>, String, bool) {
    let ast = parse(source).expect("the source follows the grammar");
    assert!(ast.is_evaluable());
    let console = Console::with_input(lines.iter().map(|l| l.to_string()).collect());
    let mut evaluator = Evaluator::with_console(console, u64::MAX);
    let result = evaluator.run(&ast);
    let output = evaluator.console().output().to_string();
    let starved = evaluator.console().starved();
    (result, output, starved)
}

#[test]
fn e2e_functions() {
    let source = "
        fn double(n) { return (n) * 2; }
        fn add(a, b) { return (a) + (b); }
        fn main() { return add(double(4), 3); }
    ";
    let (result, output) = run_source(source);
    assert_eq!(result, Ok(Value::Integer(11)));
    assert_eq!(output, "");
}

#[test]
fn for_loop_counts_to_twenty() {
    let (result, output) =
        run_source("fn main(){ let x = 0; for(let i=0; (i)<20; i=(i)+1;){ x=(x)+1; }; return x; }");
    assert_eq!(result, Ok(Value::Integer(20)));
    assert_eq!(output, "");
}

#[test]
fn print_writes_a_line_and_returns_zero() {
    let (result, output) = run_source("fn main(){ print(\"Hello\"); }");
    assert_eq!(result, Ok(Value::Integer(0)));
    assert_eq!(output, "Hello\n");
}

#[test]
fn call_of_an_undeclared_function_fails() {
    let (result, output) = run_source("fn main(){ print(\"before\"); foo(); print(\"after\"); }");
    assert_eq!(result, Err("Function 'foo' not found".to_string()));
    assert_eq!(output, "before\n");
}

#[test]
fn arithmetic_chain_is_sixty_eight() {
    let (result, _) = run_source("fn main(){ return 1+2+34+3-13+41; }");
    assert_eq!(result, Ok(Value::Integer(68)));
}

#[test]
fn arithmetic_input_by_itself_is_sixty_eight() {
    assert_eq!(eval_expression("1+2+34+3-13+41"), Ok(Value::Integer(68)));
}

#[test]
fn expressions_by_themselves() {
    assert_eq!(eval_expression("10-3-2"), Ok(Value::Integer(5)));
    assert_eq!(eval_expression(" 2 * (3 + 4) "), Ok(Value::Integer(14)));
    assert_eq!(eval_expression("-(7)"), Ok(Value::Integer(-7)));
    assert_eq!(eval_expression("int(str(41))"), Ok(Value::Integer(41)));
    assert_eq!(eval_expression("str(4, \"x\", True)"), Ok(Value::String("4xtrue".to_string())));
    assert_eq!(eval_expression("True"), Ok(Value::Boolean(true)));
    assert_eq!(eval_expression("x"), Err("Undefined variable x".to_string()));
    assert_eq!(eval_expression("foo()"), Err("Function 'foo' not found".to_string()));
}

#[test]
fn main_with_a_parameter_fails_before_its_body() {
    let (result, output) = run_source("fn main(a){ print(\"never\"); return 1; }");
    assert_eq!(result, Err("main() function should not have parameters".to_string()));
    assert_eq!(output, "");
}

#[test]
fn int_of_str_of_forty_one() {
    let (result, _) = run_source("fn f(){ return int(str(41)); } fn main(){ return f(); }");
    assert_eq!(result, Ok(Value::Integer(41)));
}

#[test]
fn subtraction_associates_to_the_left() {
    let (result, _) = run_source("fn main(){ return 10-3-2; }");
    assert_eq!(result, Ok(Value::Integer(5)));
}

#[test]
fn program_without_main_fails() {
    let (result, _) = run_source("fn helper(){ return 1; }");
    assert_eq!(result, Err("No main() function defined".to_string()));
}

#[test]
fn empty_program_fails_for_want_of_main() {
    let (result, _) = run_source("");
    assert_eq!(result, Err("No main() function defined".to_string()));
}

#[test]
fn callee_cannot_change_a_variable_of_its_caller() {
    let source = "
        fn change() { x = 99; return x; }
        fn main() { let x = 1; let seen = change(); print(seen); return x; }
    ";
    let (result, output) = run_source(source);
    assert_eq!(result, Ok(Value::Integer(1)));
    assert_eq!(output, "99\n");
}

#[test]
fn callee_sees_the_variables_of_its_caller() {
    let source = "
        fn peek() { return (x) + 1; }
        fn main() { let x = 41; return peek(); }
    ";
    let (result, _) = run_source(source);
    assert_eq!(result, Ok(Value::Integer(42)));
}

#[test]
fn variable_declared_in_an_if_body_is_visible_after_it() {
    let source = "fn main() { if (True) { let y = 7; }; return y; }";
    let (result, _) = run_source(source);
    assert_eq!(result, Ok(Value::Integer(7)));
}

#[test]
fn variable_declared_in_a_while_body_is_visible_after_it() {
    let source = "fn main() { let go = True; while ((go)) { let y = 8; go = False; }; return y; }";
    let (result, _) = run_source(source);
    assert_eq!(result, Ok(Value::Integer(8)));
}

#[test]
fn variable_declared_in_a_for_header_is_visible_after_the_loop() {
    let source = "fn main() { for (let i = 0; (i) < 3; i = (i) + 1;) { let y = (i) * 10; }; return (i) + (y); }";
    let (result, _) = run_source(source);
    assert_eq!(result, Ok(Value::Integer(23)));
}

#[test]
fn block_stops_at_the_first_result_that_is_not_zero() {
    let source = "fn main() { print(\"one\"); return 5; print(\"three\"); }";
    let (result, output) = run_source(source);
    assert_eq!(result, Ok(Value::Integer(5)));
    assert_eq!(output, "one\n");
}

#[test]
fn return_of_zero_does_not_stop_a_block() {
    let source = "fn main() { return 0; print(\"still here\"); return 3; }";
    let (result, output) = run_source(source);
    assert_eq!(result, Ok(Value::Integer(3)));
    assert_eq!(output, "still here\n");
}

#[test]
fn return_inside_an_if_leaves_the_function() {
    let source = "fn main() { if (True) { return 4; }; return 9; }";
    let (result, _) = run_source(source);
    assert_eq!(result, Ok(Value::Integer(4)));
}

#[test]
fn return_inside_a_while_body_does_not_leave_the_function() {
    let source = "fn main() { let n = 0; while ((n) < 3) { n = (n) + 1; return 7; }; return (n) + 100; }";
    let (result, _) = run_source(source);
    assert_eq!(result, Ok(Value::Integer(103)));
}

#[test]
fn return_inside_a_for_body_does_not_leave_the_function() {
    let source = "fn main() { for (let i = 0; (i) < 2; i = (i) + 1;) { return 7; }; return (i) + 50; }";
    let (result, _) = run_source(source);
    assert_eq!(result, Ok(Value::Integer(52)));
}

#[test]
fn statement_with_a_value_other_than_zero_ends_the_block() {
    let source = "fn one() { return 1; } fn main() { one(); return 9; }";
    let (result, _) = run_source(source);
    assert_eq!(result, Ok(Value::Integer(1)));
}

#[test]
fn extra_arguments_are_not_evaluated() {
    let source = "fn f(a) { return a; } fn main() { return f(5, print(\"no\")); }";
    let (result, output) = run_source(source);
    assert_eq!(result, Ok(Value::Integer(5)));
    assert_eq!(output, "");
}

#[test]
fn missing_argument_leaves_the_parameter_unbound() {
    let source = "fn f(a, b) { return b; } fn main() { return f(5); }";
    let (result, _) = run_source(source);
    assert_eq!(result, Err("Undefined variable b".to_string()));
}

#[test]
fn arguments_are_evaluated_in_the_frame_of_the_caller() {
    let source = "fn f(a, b) { return b; } fn main() { let a = 5; return f(1, a); }";
    let (result, _) = run_source(source);
    assert_eq!(result, Ok(Value::Integer(5)));
}

#[test]
fn bare_name_as_operand_is_looked_up() {
    let source = "fn main() { let i = 1; return i < 20; }";
    let (result, _) = run_source(source);
    assert_eq!(result, Ok(Value::Boolean(true)));
    let source = "fn main() { let x = 5; return x + 1; }";
    let (result, _) = run_source(source);
    assert_eq!(result, Ok(Value::Integer(6)));
    let source = "fn main() { let x = 5; let y = 2; return -x * y + x; }";
    assert_eq!(parse(source).is_err(), true);
    let source = "fn main() { let x = 5; let y = 2; return x * y - x; }";
    let (result, _) = run_source(source);
    assert_eq!(result, Ok(Value::Integer(5)));
    let source = "fn main() { return missing + 1; }";
    let (result, _) = run_source(source);
    assert_eq!(result, Err("Undefined variable missing".to_string()));
}

#[test]
fn recursion_computes_a_factorial() {
    let source = "
        fn fact(n) { if ((n) < 2) { return 1; }; return (n) * fact((n) - 1); }
        fn main() { return fact(10); }
    ";
    let (result, _) = run_source(source);
    assert_eq!(result, Ok(Value::Integer(3628800)));
}

#[test]
fn function_holds_no_environment_of_its_definition() {
    let source = "
        fn get() { return secret; }
        fn main() { let secret = 12; return get(); }
    ";
    let (result, _) = run_source(source);
    assert_eq!(result, Ok(Value::Integer(12)));
}

#[test]
fn input_returns_the_next_line_without_the_white_space_at_its_end() {
    let source = "fn main() { let name = input(\"Name: \"); print(\"Hello \", name, \"!\"); return name; }";
    let (result, output, starved) = run_with_input(source, &["  Ada \n"]);
    assert_eq!(result, Ok(Value::String("  Ada".to_string())));
    assert_eq!(output, "Name: Hello   Ada!\n");
    assert!(!starved);
}

#[test]
fn input_without_a_line_fails_after_the_prompt() {
    let source = "fn main() { let name = input(\"Name: \"); print(\"never\"); return 1; }";
    let (result, output, starved) = run_with_input(source, &[]);
    assert_eq!(result, Err("No input available".to_string()));
    assert_eq!(output, "Name: ");
    assert!(starved);
}

#[test]
fn input_takes_the_lines_in_order() {
    let source = "fn main() { let a = int(input()); let b = int(input()); return (a) - (b); }";
    let (result, _, _) = run_with_input(source, &["10\n", "3\n"]);
    assert_eq!(result, Ok(Value::Integer(7)));
}

#[test]
fn print_joins_its_arguments_without_a_separator() {
    let (result, output) = run_source("fn main() { print(1, \"a\", True, -5, False); }");
    assert_eq!(result, Ok(Value::Integer(0)));
    assert_eq!(output, "1atrue-5false\n");
}

#[test]
fn print_of_a_function_fails() {
    let (result, output) = run_source("fn f() { return 1; } fn main() { print(\"x\", (f), \"y\"); }");
    assert_eq!(result, Err("Unsupported type for print".to_string()));
    assert_eq!(output, "x");
}

#[test]
fn int_of_text_that_is_no_numeral_fails() {
    let (result, _) = run_source("fn main() { return int(\"12a\"); }");
    assert_eq!(
        result,
        Err("Failed to convert int() inputs to signed integer value".to_string())
    );
}

#[test]
fn condition_that_is_no_boolean_fails() {
    let (result, _) = run_source("fn main() { if (1) { return 2; }; return 3; }");
    assert_eq!(result, Err("Condition is not a boolean".to_string()));
    let (result, _) = run_source("fn main() { while (\"yes\") { return 2; }; return 3; }");
    assert_eq!(result, Err("Condition is not a boolean".to_string()));
    let (result, _) = run_source("fn main() { for (let i = 0; 1; i = 1;) { }; return 3; }");
    assert_eq!(result, Err("Condition is not a boolean".to_string()));
}

#[test]
fn division_truncates_towards_zero() {
    let (result, _) = run_source("fn main() { return 7 / 2; }");
    assert_eq!(result, Ok(Value::Integer(3)));
    let (result, _) = run_source("fn main() { return (-7) / 2; }");
    assert_eq!(result, Ok(Value::Integer(-3)));
    let (result, _) = run_source("fn main() { return 7 / (-2); }");
    assert_eq!(result, Ok(Value::Integer(-3)));
    let (result, _) = run_source("fn main() { return (-7) / (-2); }");
    assert_eq!(result, Ok(Value::Integer(3)));
}

#[test]
fn division_by_zero_fails() {
    let (result, _) = run_source("fn main() { return 1 / 0; }");
    assert_eq!(result, Err("Division by zero".to_string()));
}

#[test]
fn overflow_fails() {
    let (result, _) = run_source("fn main() { return 2147483647 + 1; }");
    assert_eq!(result, Err("Integer overflow".to_string()));
    let (result, _) = run_source("fn main() { return (-2147483647) - 2; }");
    assert_eq!(result, Err("Integer overflow".to_string()));
    let (result, _) = run_source("fn main() { return 65536 * 65536; }");
    assert_eq!(result, Err("Integer overflow".to_string()));
    let (result, _) = run_source("fn main() { let m = (-2147483647) - 1; return (m) / (-1); }");
    assert_eq!(result, Err("Integer overflow".to_string()));
    let (result, _) = run_source("fn main() { let m = (-2147483647) - 1; return -(m); }");
    assert_eq!(result, Err("Integer overflow".to_string()));
}

#[test]
fn comparisons_give_booleans() {
    let (result, _) = run_source("fn main() { return 1 < 2; }");
    assert_eq!(result, Ok(Value::Boolean(true)));
    let (result, _) = run_source("fn main() { return 1 > 2; }");
    assert_eq!(result, Ok(Value::Boolean(false)));
    let (result, _) = run_source("fn main() { return 2 == 2; }");
    assert_eq!(result, Ok(Value::Boolean(true)));
    let (result, _) = run_source("fn main() { return 2 != 2; }");
    assert_eq!(result, Ok(Value::Boolean(false)));
    let (result, _) = run_source("fn main() { return 2 >= 3; }");
    assert_eq!(result, Ok(Value::Boolean(false)));
    let (result, _) = run_source("fn main() { return 2 <= 3; }");
    assert_eq!(result, Ok(Value::Boolean(true)));
}

#[test]
fn unary_operators() {
    let (result, _) = run_source("fn main() { return -5; }");
    assert_eq!(result, Ok(Value::Integer(-5)));
    let (result, _) = run_source("fn main() { return !(1 < 2); }");
    assert_eq!(result, Ok(Value::Boolean(false)));
    let (result, _) = run_source("fn main() { return !5; }");
    assert_eq!(result, Err("Invalid operand for unary expression".to_string()));
    let (result, _) = run_source("fn main() { return -(True); }");
    assert_eq!(result, Err("Invalid operand for unary expression".to_string()));
}

#[test]
fn undefined_variable_fails() {
    let (result, _) = run_source("fn main() { return nothing; }");
    assert_eq!(result, Err("Undefined variable nothing".to_string()));
}

#[test]
fn declaration_without_a_value_binds_zero() {
    let (result, _) = run_source("fn main() { let x; return (x) + 3; }");
    assert_eq!(result, Ok(Value::Integer(3)));
}

#[test]
fn calling_a_variable_that_is_no_function_fails() {
    let (result, _) = run_source("fn main() { let x = 3; return x(); }");
    assert_eq!(result, Err("Function 'x' not found".to_string()));
}

#[test]
fn limit_stops_an_endless_loop() {
    let ast = parse("fn main() { while (True) { }; return 1; }").unwrap();
    let mut evaluator = Evaluator::with_console(Console::new(), 50);
    assert_eq!(evaluator.run(&ast), Err("Evaluation limit exceeded".to_string()));
}

#[test]
fn limit_stops_an_endless_recursion() {
    let ast = parse("fn f() { return f(); } fn main() { return f(); }").unwrap();
    let mut evaluator = Evaluator::with_console(Console::new(), 200);
    assert_eq!(evaluator.run(&ast), Err("Evaluation limit exceeded".to_string()));
}

#[test]
fn long_program_is_read_and_run() {
    let mut source = String::new();
    for i in 0..300 {
        source.push_str(&format!(
            "fn f{i}(a, b) {{\n    let t = (a) + (b) * {i};\n    if ((t) > 10) {{ t = (t) - 1; }};\n    return add_one(twice(twice((t))));\n}}\n"
        ));
    }
    source.push_str("fn twice(n) { return (n) * 2; }\n");
    source.push_str("fn add_one(n) { return (n) + 1; }\n");
    source.push_str("fn main() { let s = 0; for (let i = 0; (i) < 200; i = (i) + 1;) { s = (s) + f7((i), 1); }; return s; }\n");
    let (result, _) = run_source(&source);
    // Operators associate to the left and none binds tighter than another:
    // in f7(i, 1), t is (i + 1) * 7, less 1 where that is over 10.
    let expected: i32 = (0..200)
        .map(|i| {
            let t = (i + 1) * 7;
            4 * (if t > 10 { t - 1 } else { t }) + 1
        })
        .sum();
    assert_eq!(result, Ok(Value::Integer(expected)));
}

#[test]
fn calls_nest_deeply() {
    let mut expression = String::from("1");
    for _ in 0..60 {
        expression = format!("id({expression})");
    }
    let source = format!("fn id(n) {{ return n; }} fn main() {{ return {expression}; }}");
    let (result, _) = run_source(&source);
    assert_eq!(result, Ok(Value::Integer(1)));
}

#[test]
fn names_that_start_like_words_are_names() {
    let source = "
        fn form(x) { return (x) + 1; }
        fn main() {
            let iffy = 1;
            let letter = 2;
            let returned = form((iffy) + (letter));
            let whiled = True;
            let Falsey = 10;
            if ((whiled)) { returned = (returned) + (Falsey); };
            return returned;
        }
    ";
    let (result, _) = run_source(source);
    assert_eq!(result, Ok(Value::Integer(14)));
}

#[test]
fn white_space_may_stand_anywhere_between_tokens() {
    let tight = "fn main(){let x=1;while((x)<5){x=(x)*2;};return x;}";
    let loose = "\n fn\tmain (\n) {\r\n  let   x = 1 ;\n  while ( ( x ) < 5 ) {\n x = ( x ) * 2 ; } ;\n  return x ;\n}\n\n";
    assert_eq!(run_source(tight).0, Ok(Value::Integer(8)));
    assert_eq!(run_source(loose).0, Ok(Value::Integer(8)));
    assert_eq!(parse(tight), parse(loose));
}

#[test]
fn later_definition_of_a_name_wins() {
    let source = "fn f() { return 1; } fn f() { return 2; } fn main() { return f(); }";
    assert_eq!(run_source(source).0, Ok(Value::Integer(2)));
}

#[test]
fn function_can_shadow_a_built_in() {
    let source = "fn str(x) { return 7; } fn main() { return str(1); }";
    assert_eq!(run_source(source).0, Ok(Value::Integer(7)));
}

#[test]
fn functions_are_values() {
    let source = "fn f() { return 5; } fn main() { let g = f; return g(); }";
    assert_eq!(run_source(source).0, Ok(Value::Integer(5)));
}
