use minilang::builtins::{BuiltinFunction, Builtins, Console};
use minilang::value::Value;

fn text(s: &str) -> Value {
    Value::String(s.to_string())
}

#[test]
fn new_console_is_empty() {
    let console = Console::new();
    assert_eq!(console.output(), "");
    assert_eq!(console.pending(), 0);
    assert!(!console.starved());
}

#[test]
fn console_hands_out_its_lines_in_order() {
    let mut console = Console::with_input(vec!["one".to_string(), "two".to_string()]);
    assert_eq!(console.pending(), 2);
    assert_eq!(console.read_line(), Some("one".to_string()));
    assert_eq!(console.read_line(), Some("two".to_string()));
    assert!(!console.starved());
    assert_eq!(console.read_line(), None);
    assert!(console.starved());
    assert_eq!(console.pending(), 0);
}

#[test]
fn console_keeps_what_was_written() {
    let mut console = Console::new();
    console.write("ab");
    console.write("");
    console.write("c\n");
    assert_eq!(console.output(), "abc\n");
}

#[test]
fn registry_holds_the_four_functions() {
    let builtins = Builtins::new();
    assert_eq!(builtins.get("print"), Some(BuiltinFunction::Print));
    assert_eq!(builtins.get("input"), Some(BuiltinFunction::Input));
    assert_eq!(builtins.get("str"), Some(BuiltinFunction::Str));
    assert_eq!(builtins.get("int"), Some(BuiltinFunction::Int));
    assert_eq!(builtins.get("println"), None);
    assert_eq!(builtins.get(""), None);
    assert_eq!(builtins.functions.len(), 4);
}

#[test]
fn print_writes_texts_and_a_line_break() {
    let mut console = Console::new();
    let result = Builtins::print(
        &mut console,
        vec![Value::Integer(-12), text(" is "), Value::Boolean(false)],
    );
    assert_eq!(result, Ok(Value::Integer(0)));
    assert_eq!(console.output(), "-12 is false\n");
}

#[test]
fn print_of_nothing_writes_a_line_break() {
    let mut console = Console::new();
    assert_eq!(Builtins::print(&mut console, vec![]), Ok(Value::Integer(0)));
    assert_eq!(console.output(), "\n");
}

#[test]
fn print_stops_at_a_value_it_cannot_write() {
    let mut console = Console::new();
    let result = Builtins::print(
        &mut console,
        vec![text("a"), Value::BuiltinFunction(BuiltinFunction::Str), text("b")],
    );
    assert_eq!(result, Err("Unsupported type for print".to_string()));
    assert_eq!(console.output(), "a");
}

#[test]
fn input_writes_the_prompt_without_a_line_break() {
    let mut console = Console::with_input(vec!["\t42 \r\n".to_string(), "next".to_string()]);
    let result = Builtins::input(&mut console, vec![text("n"), Value::Integer(1), text("? ")]);
    assert_eq!(result, Ok(text("\t42")));
    assert_eq!(console.output(), "n1? ");
    assert_eq!(console.pending(), 1);
    assert!(!console.starved());
}

#[test]
fn input_keeps_the_white_space_at_the_start_of_the_line() {
    let mut console = Console::with_input(vec!["  hi  \n".to_string(), " \t\n".to_string()]);
    assert_eq!(Builtins::input(&mut console, vec![]), Ok(text("  hi")));
    assert_eq!(Builtins::input(&mut console, vec![]), Ok(text("")));
    assert_eq!(console.output(), "");
}

#[test]
fn input_fails_where_no_line_waits() {
    let mut console = Console::new();
    let result = Builtins::input(&mut console, vec![text("? ")]);
    assert_eq!(result, Err("No input available".to_string()));
    assert_eq!(console.output(), "? ");
    assert!(console.starved());
}

#[test]
fn input_with_a_value_it_cannot_write_reads_no_line() {
    let mut console = Console::with_input(vec!["kept".to_string()]);
    let result = Builtins::input(&mut console, vec![Value::BuiltinFunction(BuiltinFunction::Int)]);
    assert_eq!(result, Err("Unsupported type for print".to_string()));
    assert_eq!(console.pending(), 1);
    assert!(!console.starved());
}

#[test]
fn str_joins_texts() {
    assert_eq!(
        Builtins::str(vec![Value::Integer(4), text("x"), Value::Boolean(true)]),
        Ok(text("4xtrue"))
    );
    assert_eq!(Builtins::str(vec![]), Ok(text("")));
    assert_eq!(Builtins::str(vec![Value::Integer(41)]), Ok(text("41")));
    assert_eq!(
        Builtins::str(vec![Value::BuiltinFunction(BuiltinFunction::Print)]),
        Err("Unsupported type for print".to_string())
    );
}

#[test]
fn integer_reads_the_joined_texts() {
    assert_eq!(Builtins::integer(vec![text("41")]), Ok(Value::Integer(41)));
    assert_eq!(Builtins::integer(vec![text("-"), Value::Integer(5)]), Ok(Value::Integer(-5)));
    assert_eq!(Builtins::integer(vec![Value::Integer(1), Value::Integer(2)]), Ok(Value::Integer(12)));
    assert_eq!(
        Builtins::integer(vec![text(" 41")]),
        Err("Failed to convert int() inputs to signed integer value".to_string())
    );
    assert_eq!(
        Builtins::integer(vec![Value::Boolean(true)]),
        Err("Failed to convert int() inputs to signed integer value".to_string())
    );
    assert_eq!(
        Builtins::integer(vec![]),
        Err("Failed to convert int() inputs to signed integer value".to_string())
    );
    assert_eq!(
        Builtins::integer(vec![Value::BuiltinFunction(BuiltinFunction::Print)]),
        Err("Unsupported type for print".to_string())
    );
}

#[test]
fn integer_undoes_str() {
    for n in [0, 1, -1, 41, 1000, i32::MAX, i32::MIN] {
        let joined = Builtins::str(vec![Value::Integer(n)]).unwrap();
        assert_eq!(Builtins::integer(vec![joined]), Ok(Value::Integer(n)));
    }
}

#[test]
fn call_goes_to_the_function_named() {
    let mut console = Console::with_input(vec!["line".to_string()]);
    assert_eq!(
        Builtins::call(BuiltinFunction::Print, &mut console, vec![text("p")]),
        Ok(Value::Integer(0))
    );
    assert_eq!(
        Builtins::call(BuiltinFunction::Input, &mut console, vec![text("q")]),
        Ok(text("line"))
    );
    assert_eq!(
        Builtins::call(BuiltinFunction::Str, &mut console, vec![Value::Integer(3)]),
        Ok(text("3"))
    );
    assert_eq!(
        Builtins::call(BuiltinFunction::Int, &mut console, vec![text("3")]),
        Ok(Value::Integer(3))
    );
    assert_eq!(console.output(), "p\nq");
}
