use minilang::parser::parse;
use minilang::session::{Action, Session};
use minilang::value::Value;

fn session_of(source: &str) -> Session {
    let ast = parse(source).expect("the source follows the grammar");
    assert!(ast.is_evaluable());
    Session::new(ast)
}

#[test]
fn program_without_input_ends_in_one_step() {
    let session = session_of("fn main() { print(\"Hello\"); return 3; }");
    let (_, action) = session.step(None);
    assert_eq!(
        action,
        Action::End { text: "Hello\n".to_string(), result: Ok(Value::Integer(3)) }
    );
}

#[test]
fn program_that_reads_asks_for_each_line_in_turn() {
    let source = "
        fn main() {
            print(\"start\");
            let a = int(input(\"a? \"));
            print(\"got \", a);
            let b = int(input(\"b? \"));
            print(\"sum \", (a) + (b));
            return (a) + (b);
        }
    ";
    let session = session_of(source);
    let (session, action) = session.step(None);
    assert_eq!(action, Action::Read { text: "start\na? ".to_string() });
    let (session, action) = session.step(Some("20\n".to_string()));
    assert_eq!(action, Action::Read { text: "got 20\nb? ".to_string() });
    let (_, action) = session.step(Some("22 \n".to_string()));
    assert_eq!(
        action,
        Action::End { text: "sum 42\n".to_string(), result: Ok(Value::Integer(42)) }
    );
}

#[test]
fn what_the_steps_show_is_what_one_run_writes() {
    let source = "
        fn ask(n) { return input(\"line \", n, \": \"); }
        fn main() {
            for (let i = 0; (i) < 3; i = (i) + 1;) { print(\"<\", ask((i)), \">\"); };
            return 0;
        }
    ";
    let lines = ["one\n", "two\n", "three\n"];
    let mut shown = String::new();
    let mut session = session_of(source);
    let mut line = None;
    let mut reads = 0;
    let result = loop {
        let (next, action) = session.step(line.take());
        session = next;
        match action {
            Action::Read { text } => {
                shown.push_str(&text);
                line = Some(lines[reads].to_string());
                reads += 1;
            }
            Action::More { text } => {
                shown.push_str(&text);
            }
            Action::End { text, result } => {
                shown.push_str(&text);
                break result;
            }
        }
    };
    assert_eq!(reads, 3);
    assert_eq!(result, Ok(Value::Integer(0)));
    assert_eq!(shown, "line 0: <one>\nline 1: <two>\nline 2: <three>\n");
}

#[test]
fn empty_line_at_the_end_of_input_is_an_empty_string() {
    let session = session_of("fn main() { return input(\"> \"); }");
    let (session, action) = session.step(None);
    assert_eq!(action, Action::Read { text: "> ".to_string() });
    let (_, action) = session.step(Some(String::new()));
    assert_eq!(
        action,
        Action::End { text: String::new(), result: Ok(Value::String(String::new())) }
    );
}

#[test]
fn failing_program_ends_with_its_error() {
    let session = session_of("fn main() { print(\"a\"); foo(); print(\"b\"); }");
    let (_, action) = session.step(None);
    assert_eq!(
        action,
        Action::End { text: "a\n".to_string(), result: Err("Function 'foo' not found".to_string()) }
    );
}

#[test]
fn text_beyond_ascii_is_shown_by_characters() {
    let session = session_of("fn main() { print(\"\u{e9}t\u{e9} \"); let x = input(\"\u{2192} \"); print(x, \"\u{2713}\"); }");
    let (session, action) = session.step(None);
    assert_eq!(action, Action::Read { text: "\u{e9}t\u{e9} \n\u{2192} ".to_string() });
    let (_, action) = session.step(Some("\u{fc}ber\n".to_string()));
    assert_eq!(
        action,
        Action::End { text: "\u{fc}ber\u{2713}\n".to_string(), result: Ok(Value::Integer(0)) }
    );
}

#[test]
fn long_run_is_shown_piece_by_piece() {
    let source = "
        fn main() {
            for (let i = 0; (i) < 70000; i = (i) + 1;) {
                if ((i) == 100) { print(\"early\"); };
                if ((i) == 69000) { print(\"late\"); };
            };
            print(\"done\");
            return i;
        }
    ";
    let session = session_of(source);
    let (session, action) = session.step(None);
    assert_eq!(action, Action::More { text: "early\n".to_string() });
    let (_, action) = session.step(None);
    assert_eq!(
        action,
        Action::End { text: "late\ndone\n".to_string(), result: Ok(Value::Integer(70000)) }
    );
}

#[test]
fn endless_program_keeps_asking_for_more() {
    let source = "fn main() { print(\"once\"); while (True) { }; }";
    let mut session = session_of(source);
    let (next, action) = session.step(None);
    session = next;
    assert_eq!(action, Action::More { text: "once\n".to_string() });
    for _ in 0..3 {
        let (next, action) = session.step(None);
        session = next;
        assert_eq!(action, Action::More { text: String::new() });
    }
}
