use minilang::ast::{AstNode, BinaryOperator, UnaryOperator};
use minilang::grammar::{
    expression_at, identifier_at, number_at, program_at, statement_at, string_at, Input, Pair,
    enough_for, Rule,
};
use minilang::parser::{
    build_ast_from_arg_list, build_ast_from_block, build_ast_from_expression,
    build_ast_from_function_call, build_ast_from_root, build_ast_from_statement,
    build_ast_from_term, parse, parse_binary_expression, parse_binary_operator,
    parse_def_arg_list, parse_for_params, parse_func_def, parse_number, parse_unary_expression,
    parse_unary_operator, ParseError,
};

fn leaf(rule: Rule, text: &str) -> Pair {
    Pair { rule, text: text.to_string(), inner: vec![] }
}

fn node(rule: Rule, inner: Vec<Pair>) -> Pair {
    Pair { rule, text: String::new(), inner }
}

fn num(i: i32) -> Box<AstNode> {
    Box::new(AstNode::Int(i))
}

fn term(inner: AstNode) -> Box<AstNode> {
    Box::new(AstNode::Term(Box::new(inner)))
}

fn expr(inner: AstNode) -> Box<AstNode> {
    Box::new(AstNode::Expression(Box::new(inner)))
}

fn binary(lhs: Box<AstNode>, op: BinaryOperator, rhs: Box<AstNode>) -> AstNode {
    AstNode::BinaryExpression { lhs, op, rhs }
}

fn main_with(statements: Vec<AstNode>) -> AstNode {
    AstNode::Program(vec![Box::new(AstNode::FuncDef {
        name: "main".to_string(),
        args: Box::new(AstNode::DefArgList(vec![])),
        body: Box::new(AstNode::Block(statements.into_iter().map(Box::new).collect())),
    })])
}

#[test]
fn empty_text_is_an_empty_program() {
    assert_eq!(parse(""), Ok(AstNode::Program(vec![])));
    assert_eq!(parse(" \n\t "), Ok(AstNode::Program(vec![])));
}

#[test]
fn return_of_a_number() {
    assert_eq!(
        parse("fn main(){ return 7; }"),
        Ok(main_with(vec![AstNode::FuncReturn(expr(AstNode::Int(7)))]))
    );
}

#[test]
fn subtraction_chain_folds_to_the_left() {
    let inner = binary(term(AstNode::Int(10)), BinaryOperator::Subtract, term(AstNode::Int(3)));
    let outer = binary(Box::new(inner), BinaryOperator::Subtract, term(AstNode::Int(2)));
    assert_eq!(
        parse("fn main(){ return 10-3-2; }"),
        Ok(main_with(vec![AstNode::FuncReturn(expr(outer))]))
    );
}

#[test]
fn for_header_is_two_statements_around_an_expression() {
    let source = "fn main(){ for(let i=0; (i)<20; i=(i)+1;){ x=(x)+1; }; }";
    let name = |n: &str| term(AstNode::Expression(Box::new(AstNode::Identifier(n.to_string()))));
    let expected = main_with(vec![AstNode::ForLoop {
        params: Box::new(AstNode::ForLoopParams {
            initialization: Box::new(AstNode::VarDecl {
                name: "i".to_string(),
                value: Some(expr(AstNode::Int(0))),
            }),
            condition: expr(binary(name("i"), BinaryOperator::Less, term(AstNode::Int(20)))),
            updater: Box::new(AstNode::VarSet {
                name: "i".to_string(),
                value: expr(binary(name("i"), BinaryOperator::Add, term(AstNode::Int(1)))),
            }),
        }),
        body: Box::new(AstNode::Block(vec![Box::new(AstNode::VarSet {
            name: "x".to_string(),
            value: expr(binary(name("x"), BinaryOperator::Add, term(AstNode::Int(1)))),
        })])),
    }]);
    assert_eq!(parse(source), Ok(expected));
}

#[test]
fn call_with_arguments_and_parameters() {
    let source = "fn f(a, b_2) { print(\"Hi\", True, False, a); }";
    let expected = AstNode::Program(vec![Box::new(AstNode::FuncDef {
        name: "f".to_string(),
        args: Box::new(AstNode::DefArgList(vec!["a".to_string(), "b_2".to_string()])),
        body: Box::new(AstNode::Block(vec![Box::new(AstNode::FuncCall {
            name: "print".to_string(),
            args: Box::new(AstNode::ArgList(vec![
                expr(AstNode::Str("Hi".to_string())),
                expr(AstNode::Boolean(true)),
                expr(AstNode::Boolean(false)),
                expr(AstNode::Identifier("a".to_string())),
            ])),
        })])),
    })]);
    assert_eq!(parse(source), Ok(expected));
}

#[test]
fn while_if_unary_and_declaration_without_value() {
    let source = "fn main() { let x; while (!(x)) { if (-1 < 2) { x = True; }; }; }";
    let not_x = AstNode::UnaryExpression {
        op: UnaryOperator::Not,
        child: term(AstNode::Expression(Box::new(AstNode::Identifier("x".to_string())))),
    };
    let expected = main_with(vec![
        AstNode::VarDecl { name: "x".to_string(), value: None },
        AstNode::WhileLoop {
            condition: expr(not_x),
            body: Box::new(AstNode::Block(vec![Box::new(AstNode::IfStatement {
                condition: expr(AstNode::UnaryExpression {
                    op: UnaryOperator::Minus,
                    child: term(AstNode::Int(1)),
                }),
                body: Box::new(AstNode::Block(vec![])),
            })])),
        },
    ]);
    // `-1 < 2` is no expression of the grammar: a unary expression ends
    // behind its operand. So the condition of the `if` cannot be read.
    assert_eq!(parse(source), Err(ParseError::Syntax { position: 37 }));
    let source = "fn main() { let x; while (!(x)) { if (-1) { }; }; }";
    assert_eq!(parse(source), Ok(expected));
}

#[test]
fn all_binary_operators_are_read() {
    for (text, op) in [
        ("+", BinaryOperator::Add),
        ("-", BinaryOperator::Subtract),
        ("*", BinaryOperator::Multiply),
        ("/", BinaryOperator::Divide),
        (">", BinaryOperator::Greater),
        ("<", BinaryOperator::Less),
        ("==", BinaryOperator::Equal),
        ("!=", BinaryOperator::NotEqual),
        (">=", BinaryOperator::GreaterEq),
        ("<=", BinaryOperator::LessEq),
    ] {
        let source = format!("fn main(){{ return 1 {text} 2; }}");
        let expected = main_with(vec![AstNode::FuncReturn(expr(binary(
            term(AstNode::Int(1)),
            op,
            term(AstNode::Int(2)),
        )))]);
        assert_eq!(parse(&source), Ok(expected), "on {text}");
    }
}

#[test]
fn bare_name_as_operand_is_a_reference_to_a_variable() {
    assert_eq!(
        parse("fn main(){ return i < 20; }"),
        Ok(main_with(vec![AstNode::FuncReturn(expr(binary(
            term(AstNode::Identifier("i".to_string())),
            BinaryOperator::Less,
            term(AstNode::Int(20)),
        )))]))
    );
}

#[test]
fn word_needs_an_end() {
    // `letter` is a name, not `let` and `ter`.
    assert_eq!(
        parse("fn main(){ letter = 5; }"),
        Ok(main_with(vec![AstNode::VarSet {
            name: "letter".to_string(),
            value: expr(AstNode::Int(5)),
        }]))
    );
    assert_eq!(
        parse("fn main(){ return Truely; }"),
        Ok(main_with(vec![AstNode::FuncReturn(expr(AstNode::Identifier("Truely".to_string())))]))
    );
    assert_eq!(parse("fnmain(){ }"), Err(ParseError::Syntax { position: 0 }));
}

#[test]
fn string_keeps_what_stands_between_its_quotes() {
    assert_eq!(
        parse("fn main(){ return \" a + b; \u{e9} \"; }"),
        Ok(main_with(vec![AstNode::FuncReturn(expr(AstNode::Str(
            " a + b; \u{e9} ".to_string()
        )))]))
    );
    assert_eq!(
        parse("fn main(){ return \"\"; }"),
        Ok(main_with(vec![AstNode::FuncReturn(expr(AstNode::Str(String::new())))]))
    );
}

#[test]
fn parenthesized_expression_nests() {
    assert_eq!(
        parse("fn main(){ return ((5)); }"),
        Ok(main_with(vec![AstNode::FuncReturn(expr(AstNode::Expression(expr(AstNode::Int(
            5
        )))))]))
    );
}

fn goes_wrong_at(source: &str) -> usize {
    match parse(source) {
        Err(ParseError::Syntax { position }) => position,
        Ok(tree) => panic!("{source:?} was read as {tree:?}"),
    }
}

#[test]
fn syntax_error_names_where_the_text_goes_wrong() {
    // Behind what the statement holds, where the `;` is missing.
    assert_eq!(goes_wrong_at("fn main() { return 1 }"), 21);
    assert_eq!(goes_wrong_at("fn main() { while (True) { } }"), 29);
    // At the start of a statement that cannot be read.
    assert_eq!(goes_wrong_at("fn a() { }  fn b() { return ; }"), 21);
    assert_eq!(goes_wrong_at("fn main() { return \"open; }"), 12);
    assert_eq!(goes_wrong_at("fn main() { x = 1; ? }"), 19);
    // Where a function definition is expected.
    assert_eq!(goes_wrong_at("fn a() { } junk"), 11);
    assert_eq!(goes_wrong_at("return 1;"), 0);
    // In the header of a function definition.
    assert_eq!(goes_wrong_at("fn (a) { }"), 3);
    assert_eq!(goes_wrong_at("fn f a) { }"), 5);
    assert_eq!(goes_wrong_at("fn f(a, ) { }"), 6);
    assert_eq!(goes_wrong_at("fn f(a) return 1;"), 8);
    // At the end, where a block is not closed.
    assert_eq!(goes_wrong_at("fn main() { x = 1;"), 18);
    assert_eq!(goes_wrong_at("fn main() { if (True) { x = 1; "), 31);
}

#[test]
fn syntax_error_inside_a_loop_is_found() {
    // In the header.
    assert_eq!(goes_wrong_at("fn main() { if True { }; }"), 15);
    assert_eq!(goes_wrong_at("fn main() { while (1 +) { }; }"), 18);
    assert_eq!(goes_wrong_at("fn main() { for i = 0; { }; }"), 16);
    assert_eq!(goes_wrong_at("fn main() { for (let i = 0; ; i = 1;) { }; }"), 17);
    assert_eq!(goes_wrong_at("fn main() { for (let i = 0; True; i = 1; { }; }"), 41);
    // In the block, however deep.
    assert_eq!(goes_wrong_at("fn main() { if (True) x = 1; }"), 22);
    assert_eq!(goes_wrong_at("fn main() { if (True) { x = ; }; }"), 24);
    assert_eq!(
        goes_wrong_at("fn main() { while (True) { for (let i; True; i = 1;) { if (x) { y } }; }; }"),
        64
    );
}

#[test]
fn number_that_32_bits_cannot_hold_is_a_syntax_error() {
    assert_eq!(
        parse("fn main(){ return 2147483647; }"),
        Ok(main_with(vec![AstNode::FuncReturn(expr(AstNode::Int(i32::MAX)))]))
    );
    assert_eq!(parse("fn main(){ return 2147483648; }"), Err(ParseError::Syntax { position: 11 }));
}

#[test]
fn deep_nesting_is_read() {
    let deep = |n: usize| format!("fn main(){{ return {}1{}; }}", "(".repeat(n), ")".repeat(n));
    for n in [1, 10, 100, 300] {
        let tree = parse(&deep(n)).unwrap();
        assert!(tree.is_evaluable());
    }
    let mut source = String::from("fn main() { ");
    for _ in 0..150 {
        source.push_str("if (True) { ");
    }
    source.push_str("return 1; ");
    for _ in 0..150 {
        source.push_str("}; ");
    }
    source.push_str("}");
    assert!(parse(&source).is_ok());
}

#[test]
fn text_is_read_the_same_under_every_bound_that_is_enough() {
    let input = Input::new("fn main(){ return ((1)); }");
    let enough = enough_for(&input);
    assert_eq!(enough, 8 * 26 + 8);
    assert_eq!(enough_for(&Input::new("")), 8);
    let read = program_at(&input, enough);
    assert!(read.is_ok());
    for more in [1, 2, 1000, u128::MAX - enough] {
        assert_eq!(program_at(&input, enough + more), read);
    }
    // Under a bound that is too small a text is not read, or read as what
    // it is not.
    assert!(program_at(&input, 0).is_err());
    assert_ne!(program_at(&input, 11), read);
}

#[test]
fn parsed_trees_can_be_evaluated() {
    for source in ["", "fn main(){ return f(1, g(2), (x)); }", "fn f(a){ for(let i; True; i = 1;){ }; }"] {
        assert!(parse(source).unwrap().is_evaluable());
    }
}

#[test]
fn tokens_are_read_behind_white_space() {
    let input = Input::new("  abc_1 + 2");
    let (pair, end) = identifier_at(&input, 0).unwrap();
    assert_eq!(pair, leaf(Rule::Identifier, "abc_1"));
    assert_eq!(end, 7);
    assert_eq!(identifier_at(&input, 7), None);
    let (pair, end) = number_at(&input, 9).unwrap();
    assert_eq!(pair, leaf(Rule::Number, "2"));
    assert_eq!(end, 11);
    let input = Input::new("\"a b\" rest");
    let (pair, end) = string_at(&input, 0).unwrap();
    assert_eq!(pair, leaf(Rule::String, "\"a b\""));
    assert_eq!(end, 5);
    assert_eq!(input.len(), 10);
    assert_eq!(input.at(1), 'a');
    assert_eq!(input.slice(1, 4), "a b");
}

#[test]
fn expression_tree_of_a_sum() {
    let input = Input::new("1 + (x)");
    let (pair, end) = expression_at(&input, 0, enough_for(&input)).unwrap();
    assert_eq!(end, 7);
    let expected = Pair {
        rule: Rule::Expression,
        text: "1 + (x)".to_string(),
        inner: vec![Pair {
            rule: Rule::BinaryExpression,
            text: "1 + (x)".to_string(),
            inner: vec![
                Pair { rule: Rule::Term, text: "1".to_string(), inner: vec![leaf(Rule::Number, "1")] },
                leaf(Rule::BinaryOperator, "+"),
                Pair {
                    rule: Rule::Term,
                    text: "(x)".to_string(),
                    inner: vec![Pair {
                        rule: Rule::Expression,
                        text: "x".to_string(),
                        inner: vec![leaf(Rule::Identifier, "x")],
                    }],
                },
            ],
        }],
    };
    assert_eq!(pair, expected);
    assert_eq!(expression_at(&input, 0, 0), None);
}

#[test]
fn statement_tree_of_a_declaration() {
    let input = Input::new("let x = 1;");
    let (pair, end) = statement_at(&input, 0, enough_for(&input)).unwrap();
    assert_eq!(end, 10);
    assert_eq!(pair.rule, Rule::Statement);
    assert_eq!(pair.text, "let x = 1;");
    assert_eq!(pair.inner.len(), 1);
    assert_eq!(pair.inner[0].rule, Rule::VarDecl);
    assert_eq!(pair.inner[0].text, "let x = 1");
    assert_eq!(pair.inner[0].inner[0], leaf(Rule::Identifier, "x"));
    assert_eq!(pair.inner[0].inner[1].rule, Rule::Expression);
}

#[test]
fn program_tree_ends_with_the_end_of_input() {
    let input = Input::new(" fn a(){} ");
    let pair = program_at(&input, enough_for(&input)).unwrap();
    assert_eq!(pair.rule, Rule::Program);
    assert_eq!(pair.inner.len(), 2);
    assert_eq!(pair.inner[0].rule, Rule::FuncDef);
    assert_eq!(pair.inner[0].text, "fn a(){}");
    assert_eq!(pair.inner[1], leaf(Rule::EOI, ""));
    let input = Input::new("fn a(){} x");
    assert_eq!(program_at(&input, enough_for(&input)), Err(9));
    let input = Input::new("fn a(){ x }");
    assert_eq!(program_at(&input, enough_for(&input)), Err(8));
}

#[test]
fn operators_are_built_from_their_text() {
    for (text, op) in [
        ("+", BinaryOperator::Add),
        ("-", BinaryOperator::Subtract),
        ("*", BinaryOperator::Multiply),
        ("/", BinaryOperator::Divide),
        (">", BinaryOperator::Greater),
        ("<", BinaryOperator::Less),
        ("==", BinaryOperator::Equal),
        ("!=", BinaryOperator::NotEqual),
        (">=", BinaryOperator::GreaterEq),
        ("<=", BinaryOperator::LessEq),
    ] {
        assert_eq!(parse_binary_operator(&leaf(Rule::BinaryOperator, text)), op, "on {text}");
    }
    assert_eq!(parse_unary_operator(&leaf(Rule::UnaryOperator, "!")), UnaryOperator::Not);
    assert_eq!(parse_unary_operator(&leaf(Rule::UnaryOperator, "-")), UnaryOperator::Minus);
    assert_eq!(
        parse_binary_expression(AstNode::Int(1), &leaf(Rule::BinaryOperator, "*"), AstNode::Int(2)),
        binary(num(1), BinaryOperator::Multiply, num(2))
    );
    assert_eq!(
        parse_unary_expression(&leaf(Rule::UnaryOperator, "-"), AstNode::Int(2)),
        AstNode::UnaryExpression { op: UnaryOperator::Minus, child: num(2) }
    );
}

#[test]
fn numbers_are_built_from_their_text() {
    assert_eq!(parse_number(&leaf(Rule::Number, "20")), AstNode::Int(20));
    assert_eq!(parse_number(&leaf(Rule::Number, "120")), AstNode::Int(120));
    assert_eq!(parse_number(&leaf(Rule::Number, "0")), AstNode::Int(0));
    assert_eq!(parse_number(&leaf(Rule::Number, "007")), AstNode::Int(7));
    assert_eq!(parse_number(&leaf(Rule::Number, "2147483647")), AstNode::Int(i32::MAX));
    assert_eq!(parse_number(&leaf(Rule::Number, "-3")), AstNode::Int(-3));
}

#[test]
fn booleans_are_built_from_their_two_spellings() {
    assert_eq!(build_ast_from_expression(&leaf(Rule::Boolean, "True")), AstNode::Boolean(true));
    assert_eq!(build_ast_from_expression(&leaf(Rule::Boolean, "False")), AstNode::Boolean(false));
}

#[test]
fn statements_are_built_from_each_of_the_seven_rules() {
    let statement = |what: Pair| build_ast_from_statement(&node(Rule::Statement, vec![what]));
    let x = || leaf(Rule::Identifier, "x");
    let one = || node(Rule::Expression, vec![leaf(Rule::Number, "1")]);
    let block = || node(Rule::Block, vec![]);
    assert_eq!(
        statement(node(Rule::VarDecl, vec![x()])),
        AstNode::VarDecl { name: "x".to_string(), value: None }
    );
    assert_eq!(
        statement(node(Rule::VarDecl, vec![x(), one()])),
        AstNode::VarDecl { name: "x".to_string(), value: Some(expr(AstNode::Int(1))) }
    );
    assert_eq!(
        statement(node(Rule::VarSet, vec![x(), one()])),
        AstNode::VarSet { name: "x".to_string(), value: expr(AstNode::Int(1)) }
    );
    assert_eq!(
        statement(node(Rule::FuncCall, vec![x(), node(Rule::ArgList, vec![one()])])),
        AstNode::FuncCall {
            name: "x".to_string(),
            args: Box::new(AstNode::ArgList(vec![expr(AstNode::Int(1))])),
        }
    );
    assert_eq!(
        statement(node(Rule::FuncReturn, vec![x()])),
        AstNode::FuncReturn(Box::new(AstNode::Identifier("x".to_string())))
    );
    let header = node(
        Rule::ForParams,
        vec![
            node(Rule::Statement, vec![node(Rule::VarDecl, vec![x()])]),
            leaf(Rule::Boolean, "True"),
            node(Rule::Statement, vec![node(Rule::VarSet, vec![x(), one()])]),
        ],
    );
    assert_eq!(
        statement(node(Rule::ForLoop, vec![header, block()])),
        AstNode::ForLoop {
            params: Box::new(AstNode::ForLoopParams {
                initialization: Box::new(AstNode::VarDecl { name: "x".to_string(), value: None }),
                condition: Box::new(AstNode::Boolean(true)),
                updater: Box::new(AstNode::VarSet {
                    name: "x".to_string(),
                    value: expr(AstNode::Int(1)),
                }),
            }),
            body: Box::new(AstNode::Block(vec![])),
        }
    );
    assert_eq!(
        statement(node(Rule::WhileLoop, vec![one(), block()])),
        AstNode::WhileLoop {
            condition: expr(AstNode::Int(1)),
            body: Box::new(AstNode::Block(vec![])),
        }
    );
    assert_eq!(
        statement(node(Rule::IfStatement, vec![one(), block()])),
        AstNode::IfStatement {
            condition: expr(AstNode::Int(1)),
            body: Box::new(AstNode::Block(vec![])),
        }
    );
}

#[test]
fn builder_builds_hand_made_trees() {
    assert_eq!(
        parse_def_arg_list(&node(Rule::DefArgList, vec![leaf(Rule::Identifier, "a"), leaf(Rule::Identifier, "b")])),
        AstNode::DefArgList(vec!["a".to_string(), "b".to_string()])
    );
    assert_eq!(
        build_ast_from_arg_list(&node(Rule::ArgList, vec![leaf(Rule::Number, "1"), leaf(Rule::Boolean, "False")])),
        AstNode::ArgList(vec![num(1), Box::new(AstNode::Boolean(false))])
    );
    assert_eq!(
        build_ast_from_function_call(&node(
            Rule::FuncCall,
            vec![leaf(Rule::Identifier, "f"), node(Rule::ArgList, vec![])]
        )),
        AstNode::FuncCall { name: "f".to_string(), args: Box::new(AstNode::ArgList(vec![])) }
    );
    assert_eq!(
        build_ast_from_term(&node(Rule::Term, vec![leaf(Rule::Identifier, "x")])),
        AstNode::Term(Box::new(AstNode::Identifier("x".to_string())))
    );
    assert_eq!(
        build_ast_from_term(&leaf(Rule::Identifier, "n")),
        AstNode::Identifier("n".to_string())
    );
    assert_eq!(
        build_ast_from_expression(&leaf(Rule::String, "\"abc\"")),
        AstNode::Str("abc".to_string())
    );
    assert_eq!(
        build_ast_from_expression(&node(
            Rule::UnaryExpression,
            vec![leaf(Rule::UnaryOperator, "!"), leaf(Rule::Identifier, "x")]
        )),
        AstNode::UnaryExpression {
            op: UnaryOperator::Not,
            child: Box::new(AstNode::Identifier("x".to_string())),
        }
    );
    let five = vec![
        leaf(Rule::Number, "10"),
        leaf(Rule::BinaryOperator, "-"),
        leaf(Rule::Number, "3"),
        leaf(Rule::BinaryOperator, "-"),
        leaf(Rule::Number, "2"),
    ];
    assert_eq!(
        build_ast_from_expression(&node(Rule::BinaryExpression, five)),
        binary(
            Box::new(binary(num(10), BinaryOperator::Subtract, num(3))),
            BinaryOperator::Subtract,
            num(2)
        )
    );
    assert_eq!(
        build_ast_from_block(&node(
            Rule::Block,
            vec![node(Rule::Statement, vec![node(Rule::FuncReturn, vec![leaf(Rule::Number, "1")])])]
        )),
        AstNode::Block(vec![Box::new(AstNode::FuncReturn(num(1)))])
    );
    assert_eq!(
        parse_for_params(&node(
            Rule::ForParams,
            vec![
                node(Rule::Statement, vec![node(Rule::VarDecl, vec![leaf(Rule::Identifier, "i")])]),
                leaf(Rule::Identifier, "go"),
                node(Rule::Statement, vec![node(Rule::FuncReturn, vec![leaf(Rule::Number, "1")])]),
            ]
        )),
        AstNode::ForLoopParams {
            initialization: Box::new(AstNode::VarDecl { name: "i".to_string(), value: None }),
            condition: Box::new(AstNode::Identifier("go".to_string())),
            updater: Box::new(AstNode::FuncReturn(num(1))),
        }
    );
    let definition = || {
        node(
            Rule::FuncDef,
            vec![
                leaf(Rule::Identifier, "f"),
                node(Rule::DefArgList, vec![leaf(Rule::Identifier, "a")]),
                node(Rule::Block, vec![]),
            ],
        )
    };
    let built = AstNode::FuncDef {
        name: "f".to_string(),
        args: Box::new(AstNode::DefArgList(vec!["a".to_string()])),
        body: Box::new(AstNode::Block(vec![])),
    };
    assert_eq!(parse_func_def(&definition()), built);
    assert_eq!(
        build_ast_from_root(&node(Rule::Program, vec![definition(), leaf(Rule::EOI, "")])),
        AstNode::Program(vec![Box::new(built)])
    );
    assert_eq!(
        build_ast_from_root(&node(Rule::Program, vec![leaf(Rule::EOI, "")])),
        AstNode::Program(vec![])
    );
}
