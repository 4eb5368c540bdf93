use minilang::ast::{AstNode, BinaryOperator, UnaryOperator};
use minilang::builtins::{BuiltinFunction, Console};
use minilang::interpreter::{apply_binary, apply_unary, Evaluator};
use minilang::value::Value;

fn num(i: i32) -> Box<AstNode> {
    Box::new(AstNode::Int(i))
}

fn name(n: &str) -> Box<AstNode> {
    Box::new(AstNode::Identifier(n.to_string()))
}

fn declare(n: &str, value: AstNode) -> Box<AstNode> {
    Box::new(AstNode::VarDecl { name: n.to_string(), value: Some(Box::new(value)) })
}

fn assign(n: &str, value: AstNode) -> Box<AstNode> {
    Box::new(AstNode::VarSet { name: n.to_string(), value: Box::new(value) })
}

fn call(n: &str, args: Vec<Box<AstNode>>) -> AstNode {
    AstNode::FuncCall { name: n.to_string(), args: Box::new(AstNode::ArgList(args)) }
}

fn define(n: &str, params: &[&str], body: Vec<Box<AstNode>>) -> AstNode {
    AstNode::FuncDef {
        name: n.to_string(),
        args: Box::new(AstNode::DefArgList(params.iter().map(|p| p.to_string()).collect())),
        body: Box::new(AstNode::Block(body)),
    }
}

#[test]
fn new_evaluator_binds_the_built_in_functions() {
    let evaluator = Evaluator::new();
    assert_eq!(evaluator.lookup("print"), Some(Value::BuiltinFunction(BuiltinFunction::Print)));
    assert_eq!(evaluator.lookup("input"), Some(Value::BuiltinFunction(BuiltinFunction::Input)));
    assert_eq!(evaluator.lookup("str"), Some(Value::BuiltinFunction(BuiltinFunction::Str)));
    assert_eq!(evaluator.lookup("int"), Some(Value::BuiltinFunction(BuiltinFunction::Int)));
    assert_eq!(evaluator.lookup("main"), None);
    assert_eq!(evaluator.console().output(), "");
    assert_eq!(evaluator.builtins().get("print"), Some(BuiltinFunction::Print));
    assert_eq!(evaluator.builtins().functions.len(), 4);
}

#[test]
fn literals_evaluate_to_their_values() {
    let mut evaluator = Evaluator::new();
    assert_eq!(evaluator.eval(&AstNode::Int(5)), Ok(Value::Integer(5)));
    assert_eq!(evaluator.eval(&AstNode::Boolean(true)), Ok(Value::Boolean(true)));
    assert_eq!(evaluator.eval(&AstNode::Str("s".to_string())), Ok(Value::String("s".to_string())));
    assert_eq!(
        evaluator.eval(&AstNode::Term(Box::new(AstNode::Expression(num(3))))),
        Ok(Value::Integer(3))
    );
    assert_eq!(evaluator.eval(&AstNode::FuncReturn(num(4))), Ok(Value::Integer(4)));
}

#[test]
fn standalone_arithmetic_is_sixty_eight() {
    // 1+2+34+3-13+41, folded to the left.
    let mut tree = AstNode::Int(1);
    for (op, n) in [
        (BinaryOperator::Add, 2),
        (BinaryOperator::Add, 34),
        (BinaryOperator::Add, 3),
        (BinaryOperator::Subtract, 13),
        (BinaryOperator::Add, 41),
    ] {
        tree = AstNode::BinaryExpression { lhs: Box::new(tree), op, rhs: num(n) };
    }
    let mut evaluator = Evaluator::new();
    assert_eq!(evaluator.eval(&tree), Ok(Value::Integer(68)));
}

#[test]
fn right_fold_of_ten_three_two_would_be_nine() {
    let left = AstNode::BinaryExpression {
        lhs: Box::new(AstNode::BinaryExpression {
            lhs: num(10),
            op: BinaryOperator::Subtract,
            rhs: num(3),
        }),
        op: BinaryOperator::Subtract,
        rhs: num(2),
    };
    let right = AstNode::BinaryExpression {
        lhs: num(10),
        op: BinaryOperator::Subtract,
        rhs: Box::new(AstNode::BinaryExpression {
            lhs: num(3),
            op: BinaryOperator::Subtract,
            rhs: num(2),
        }),
    };
    let mut evaluator = Evaluator::new();
    assert_eq!(evaluator.eval(&left), Ok(Value::Integer(5)));
    assert_eq!(evaluator.eval(&right), Ok(Value::Integer(9)));
}

#[test]
fn binary_operators_on_values() {
    let i = Value::Integer;
    assert_eq!(apply_binary(BinaryOperator::Add, &i(2), &i(3)), Ok(i(5)));
    assert_eq!(apply_binary(BinaryOperator::Subtract, &i(2), &i(3)), Ok(i(-1)));
    assert_eq!(apply_binary(BinaryOperator::Multiply, &i(-2), &i(3)), Ok(i(-6)));
    assert_eq!(apply_binary(BinaryOperator::Divide, &i(-7), &i(2)), Ok(i(-3)));
    assert_eq!(apply_binary(BinaryOperator::Divide, &i(0), &i(-2)), Ok(i(0)));
    assert_eq!(apply_binary(BinaryOperator::Divide, &i(i32::MIN), &i(1)), Ok(i(i32::MIN)));
    assert_eq!(
        apply_binary(BinaryOperator::Divide, &i(i32::MIN), &i(-1)),
        Err("Integer overflow".to_string())
    );
    assert_eq!(apply_binary(BinaryOperator::Divide, &i(1), &i(0)), Err("Division by zero".to_string()));
    assert_eq!(
        apply_binary(BinaryOperator::Add, &i(i32::MAX), &i(1)),
        Err("Integer overflow".to_string())
    );
    assert_eq!(
        apply_binary(BinaryOperator::Subtract, &i(i32::MIN), &i(1)),
        Err("Integer overflow".to_string())
    );
    assert_eq!(apply_binary(BinaryOperator::GreaterEq, &i(3), &i(3)), Ok(Value::Boolean(true)));
    assert_eq!(apply_binary(BinaryOperator::NotEqual, &i(3), &i(3)), Ok(Value::Boolean(false)));
    assert_eq!(
        apply_binary(BinaryOperator::Add, &Value::String("a".to_string()), &i(1)),
        Err("Invalid operands for binary expression".to_string())
    );
    assert_eq!(
        apply_binary(BinaryOperator::Equal, &Value::Boolean(true), &Value::Boolean(true)),
        Err("Invalid operands for binary expression".to_string())
    );
}

#[test]
fn unary_operators_on_values() {
    assert_eq!(apply_unary(UnaryOperator::Minus, &Value::Integer(5)), Ok(Value::Integer(-5)));
    assert_eq!(apply_unary(UnaryOperator::Minus, &Value::Integer(i32::MAX)), Ok(Value::Integer(-i32::MAX)));
    assert_eq!(
        apply_unary(UnaryOperator::Minus, &Value::Integer(i32::MIN)),
        Err("Integer overflow".to_string())
    );
    assert_eq!(apply_unary(UnaryOperator::Not, &Value::Boolean(true)), Ok(Value::Boolean(false)));
    assert_eq!(
        apply_unary(UnaryOperator::Not, &Value::Integer(0)),
        Err("Invalid operand for unary expression".to_string())
    );
}

#[test]
fn declarations_and_assignments_bind_in_the_frame() {
    let mut evaluator = Evaluator::new();
    assert_eq!(evaluator.eval(&declare("x", AstNode::Int(3))), Ok(Value::Integer(0)));
    assert_eq!(evaluator.lookup("x"), Some(Value::Integer(3)));
    assert_eq!(evaluator.eval(&assign("x", AstNode::Int(4))), Ok(Value::Integer(0)));
    assert_eq!(evaluator.lookup("x"), Some(Value::Integer(4)));
    assert_eq!(evaluator.eval(&assign("fresh", AstNode::Boolean(true))), Ok(Value::Integer(0)));
    assert_eq!(evaluator.lookup("fresh"), Some(Value::Boolean(true)));
    assert_eq!(evaluator.eval(&name("x")), Ok(Value::Integer(4)));
    assert_eq!(evaluator.eval(&name("y")), Err("Undefined variable y".to_string()));
}

#[test]
fn function_definition_binds_a_function() {
    let mut evaluator = Evaluator::new();
    let body = vec![Box::new(AstNode::FuncReturn(name("a")))];
    assert_eq!(evaluator.eval(&define("id", &["a"], body.clone())), Ok(Value::Integer(0)));
    assert_eq!(
        evaluator.lookup("id"),
        Some(Value::Function(
            "id".to_string(),
            vec!["a".to_string()],
            Box::new(AstNode::Block(body))
        ))
    );
    assert_eq!(evaluator.eval(&call("id", vec![num(9)])), Ok(Value::Integer(9)));
}

#[test]
fn function_definition_without_a_parameter_list_fails() {
    let mut evaluator = Evaluator::new();
    let node = AstNode::FuncDef {
        name: "f".to_string(),
        args: Box::new(AstNode::Int(0)),
        body: Box::new(AstNode::Block(vec![])),
    };
    assert_eq!(evaluator.eval(&node), Err("Invalid function definition".to_string()));
    assert_eq!(evaluator.lookup("f"), None);
}

#[test]
fn for_loop_without_a_header_fails() {
    let mut evaluator = Evaluator::new();
    let node = AstNode::ForLoop {
        params: Box::new(AstNode::Int(0)),
        body: Box::new(AstNode::Block(vec![])),
    };
    assert_eq!(evaluator.eval(&node), Err("Invalid for loop parameters".to_string()));
}

#[test]
fn program_gives_the_result_of_its_last_node() {
    let mut evaluator = Evaluator::new();
    assert_eq!(evaluator.eval(&AstNode::Program(vec![])), Ok(Value::Integer(0)));
    assert_eq!(
        evaluator.eval(&AstNode::Program(vec![num(1), num(0), num(7)])),
        Ok(Value::Integer(7))
    );
    assert_eq!(
        evaluator.eval(&AstNode::Program(vec![num(1), name("missing"), num(7)])),
        Err("Undefined variable missing".to_string())
    );
}

#[test]
fn call_leaves_no_binding_behind() {
    let mut evaluator = Evaluator::new();
    evaluator.eval(&declare("x", AstNode::Int(1))).unwrap();
    let body = vec![
        assign("x", AstNode::Int(99)),
        declare("local", AstNode::Int(5)),
        Box::new(AstNode::FuncReturn(name("x"))),
    ];
    evaluator.eval(&define("f", &["p"], body)).unwrap();
    assert_eq!(evaluator.eval(&call("f", vec![num(3)])), Ok(Value::Integer(99)));
    assert_eq!(evaluator.lookup("x"), Some(Value::Integer(1)));
    assert_eq!(evaluator.lookup("local"), None);
    assert_eq!(evaluator.lookup("p"), None);
}

#[test]
fn failed_call_leaves_its_frame() {
    let mut evaluator = Evaluator::new();
    let body = vec![declare("local", AstNode::Int(5)), name("missing")];
    evaluator.eval(&define("f", &[], body)).unwrap();
    assert_eq!(
        evaluator.eval(&call("f", vec![])),
        Err("Undefined variable missing".to_string())
    );
    assert_eq!(evaluator.lookup("local"), Some(Value::Integer(5)));
}

#[test]
fn run_takes_the_frame_of_main_off_also_after_an_error() {
    let mut evaluator = Evaluator::new();
    let program = AstNode::Program(vec![Box::new(define(
        "main",
        &[],
        vec![declare("local", AstNode::Int(5)), name("missing")],
    ))]);
    assert_eq!(evaluator.run(&program), Err("Undefined variable missing".to_string()));
    assert_eq!(evaluator.lookup("local"), None);
    assert!(evaluator.lookup("main").is_some());
}

#[test]
fn run_on_what_binds_main_to_no_function_finds_no_entry() {
    let mut evaluator = Evaluator::new();
    assert_eq!(
        evaluator.run(&declare("main", AstNode::Int(1))),
        Err("No main() function defined".to_string())
    );
}

#[test]
fn later_parameter_of_the_same_name_wins() {
    let mut evaluator = Evaluator::new();
    evaluator
        .eval(&define("f", &["a", "a"], vec![Box::new(AstNode::FuncReturn(name("a")))]))
        .unwrap();
    assert_eq!(evaluator.eval(&call("f", vec![num(1), num(2)])), Ok(Value::Integer(2)));
}

#[test]
fn block_result_is_that_of_the_first_statement_that_is_not_zero() {
    let mut evaluator = Evaluator::new();
    let block = AstNode::Block(vec![
        declare("a", AstNode::Int(1)),
        Box::new(AstNode::Str("stop".to_string())),
        declare("b", AstNode::Int(2)),
    ]);
    assert_eq!(evaluator.eval(&block), Ok(Value::String("stop".to_string())));
    assert_eq!(evaluator.lookup("a"), Some(Value::Integer(1)));
    assert_eq!(evaluator.lookup("b"), None);
    assert_eq!(evaluator.eval(&AstNode::Block(vec![])), Ok(Value::Integer(0)));
    assert_eq!(
        evaluator.eval(&AstNode::Block(vec![Box::new(AstNode::Boolean(false)), num(3)])),
        Ok(Value::Boolean(false))
    );
}

#[test]
fn while_loop_returns_zero_whatever_its_body_returns() {
    let mut evaluator = Evaluator::new();
    evaluator.eval(&declare("go", AstNode::Boolean(true))).unwrap();
    let node = AstNode::WhileLoop {
        condition: name("go"),
        body: Box::new(AstNode::Block(vec![assign("go", AstNode::Boolean(false)), num(7)])),
    };
    assert_eq!(evaluator.eval(&node), Ok(Value::Integer(0)));
    assert_eq!(evaluator.lookup("go"), Some(Value::Boolean(false)));
}

#[test]
fn limit_bounds_the_height_of_an_evaluation() {
    let node = AstNode::Expression(Box::new(AstNode::Expression(num(1))));
    let mut evaluator = Evaluator::with_console(Console::new(), 3);
    assert_eq!(evaluator.eval(&node), Ok(Value::Integer(1)));
    assert_eq!(evaluator.eval_at(&node, 2), Err("Evaluation limit exceeded".to_string()));
    assert_eq!(evaluator.eval_at(&node, 0), Err("Evaluation limit exceeded".to_string()));
    for fuel in 3..10 {
        assert_eq!(evaluator.eval_at(&node, fuel), Ok(Value::Integer(1)));
    }
}

#[test]
fn trees_that_cannot_be_evaluated_are_told_apart() {
    assert!(AstNode::Int(1).is_evaluable());
    assert!(call("f", vec![num(1)]).is_evaluable());
    assert!(!AstNode::ArgList(vec![]).is_evaluable());
    assert!(!AstNode::DefArgList(vec![]).is_evaluable());
    assert!(!AstNode::FuncCall { name: "f".to_string(), args: num(1) }.is_evaluable());
    assert!(!AstNode::Block(vec![num(1), Box::new(AstNode::ArgList(vec![]))]).is_evaluable());
    assert!(!call("f", vec![Box::new(AstNode::DefArgList(vec![]))]).is_evaluable());
    // An argument is an expression, not a statement.
    assert!(!call("f", vec![declare("t", AstNode::Int(1))]).is_evaluable());
    assert!(!call("f", vec![Box::new(AstNode::Block(vec![]))]).is_evaluable());
    assert!(!call("f", vec![Box::new(call("g", vec![assign("t", AstNode::Int(1))]))]).is_evaluable());
    assert!(call("f", vec![Box::new(call("g", vec![name("t")]))]).is_evaluable());
    let header = AstNode::ForLoopParams { initialization: num(0), condition: num(0), updater: num(0) };
    assert!(!header.clone().is_evaluable());
    assert!(AstNode::ForLoop { params: Box::new(header), body: Box::new(AstNode::Block(vec![])) }
        .is_evaluable());
}

#[test]
fn expressions_are_told_from_statements() {
    assert!(AstNode::Int(1).is_expression());
    assert!(name("x").is_expression());
    assert!(AstNode::Str("s".to_string()).is_expression());
    assert!(AstNode::Boolean(true).is_expression());
    assert!(AstNode::Term(Box::new(AstNode::Expression(num(1)))).is_expression());
    assert!(AstNode::UnaryExpression { op: UnaryOperator::Minus, child: num(1) }.is_expression());
    assert!(AstNode::BinaryExpression { lhs: num(1), op: BinaryOperator::Add, rhs: name("x") }
        .is_expression());
    assert!(call("f", vec![num(1), name("x")]).is_expression());
    assert!(!declare("x", AstNode::Int(1)).is_expression());
    assert!(!assign("x", AstNode::Int(1)).is_expression());
    assert!(!AstNode::Block(vec![]).is_expression());
    assert!(!AstNode::FuncReturn(num(1)).is_expression());
    assert!(!AstNode::ArgList(vec![]).is_expression());
    assert!(!call("f", vec![declare("x", AstNode::Int(1))]).is_expression());
    assert!(!AstNode::BinaryExpression {
        lhs: num(1),
        op: BinaryOperator::Add,
        rhs: assign("x", AstNode::Int(1)),
    }
    .is_expression());
}

#[test]
fn call_leaves_the_values_of_the_caller_as_they_were() {
    let mut evaluator = Evaluator::new();
    evaluator.eval(&declare("x", AstNode::Int(1))).unwrap();
    evaluator.eval(&declare("y", AstNode::Boolean(true))).unwrap();
    let body = vec![
        assign("x", AstNode::Int(2)),
        declare("y", AstNode::Int(3)),
        assign("print", AstNode::Int(4)),
        Box::new(AstNode::FuncReturn(Box::new(AstNode::BinaryExpression {
            lhs: name("x"),
            op: BinaryOperator::Add,
            rhs: name("y"),
        }))),
    ];
    evaluator.eval(&define("f", &[], body)).unwrap();
    assert_eq!(evaluator.eval(&call("f", vec![])), Ok(Value::Integer(5)));
    assert_eq!(evaluator.eval(&name("x")), Ok(Value::Integer(1)));
    assert_eq!(evaluator.eval(&name("y")), Ok(Value::Boolean(true)));
    assert_eq!(
        evaluator.eval(&name("print")),
        Ok(Value::BuiltinFunction(BuiltinFunction::Print))
    );
}

#[test]
fn clones_are_equal_to_what_was_cloned() {
    let tree = define(
        "f",
        &["a", "b"],
        vec![
            declare("x", call("g", vec![num(1), name("a")])),
            Box::new(AstNode::IfStatement {
                condition: Box::new(AstNode::UnaryExpression {
                    op: UnaryOperator::Not,
                    child: Box::new(AstNode::Boolean(false)),
                }),
                body: Box::new(AstNode::Block(vec![Box::new(AstNode::Str("s".to_string()))])),
            }),
        ],
    );
    assert_eq!(tree.clone(), tree);
    let value = Value::Function("f".to_string(), vec!["a".to_string()], Box::new(tree));
    assert_eq!(value.clone(), value);
    assert_eq!(Value::String("s".to_string()).clone(), Value::String("s".to_string()));
}
