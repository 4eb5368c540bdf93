//! From source text to syntax tree: the grammar reads the text into a parse
//! tree, and the functions of this module build the syntax tree from it.
//!
//! Not every parse tree has a syntax tree: the `ast_of_` functions say which
//! have one, and which. The building functions take the trees that have
//! one; those are all that the grammar reads.

use crate::ast::{
    all_expressions, all_plain, is_expression, lemma_plain_is_evaluable, names_model, nodes_model,
    Ast, AstNode, BinaryOperator, UnaryOperator,
};
use crate::grammar::{
    blame_program, enough, enough_for, program, program_at, Input, Pair, Rule, Tree,
};
use crate::builds::lemma_program_builds;
use crate::text::{parse_int, parse_int_spec};
use vstd::prelude::*;
use vstd::string::*;

verus! {

/// Why a source text has no syntax tree.
#[derive(Debug, Clone, Copy, PartialEq, Eq)]
pub enum ParseError {
    /// The text does not follow the grammar: it goes wrong at `position`,
    /// counted in characters.
    Syntax { position: usize },
}

/// The binary operator that is written `text`, where `text` is one of the
/// ten.
pub open spec fn binary_operator_of(text: Seq<char>) -> Option<BinaryOperator> {
    if text == "+"@ {
        Some(BinaryOperator::Add)
    } else if text == "-"@ {
        Some(BinaryOperator::Subtract)
    } else if text == "*"@ {
        Some(BinaryOperator::Multiply)
    } else if text == "/"@ {
        Some(BinaryOperator::Divide)
    } else if text == ">"@ {
        Some(BinaryOperator::Greater)
    } else if text == "<"@ {
        Some(BinaryOperator::Less)
    } else if text == "=="@ {
        Some(BinaryOperator::Equal)
    } else if text == "!="@ {
        Some(BinaryOperator::NotEqual)
    } else if text == ">="@ {
        Some(BinaryOperator::GreaterEq)
    } else if text == "<="@ {
        Some(BinaryOperator::LessEq)
    } else {
        None
    }
}

/// The unary operator that is written `text`, where `text` is `!` or `-`.
pub open spec fn unary_operator_of(text: Seq<char>) -> Option<UnaryOperator> {
    if text == "!"@ {
        Some(UnaryOperator::Not)
    } else if text == "-"@ {
        Some(UnaryOperator::Minus)
    } else {
        None
    }
}

/// The ten operators are written in ten ways, each in its own.
pub proof fn lemma_ten_binary_operators()
    ensures
        binary_operator_of("+"@) == Some(BinaryOperator::Add),
        binary_operator_of("-"@) == Some(BinaryOperator::Subtract),
        binary_operator_of("*"@) == Some(BinaryOperator::Multiply),
        binary_operator_of("/"@) == Some(BinaryOperator::Divide),
        binary_operator_of(">"@) == Some(BinaryOperator::Greater),
        binary_operator_of("<"@) == Some(BinaryOperator::Less),
        binary_operator_of("=="@) == Some(BinaryOperator::Equal),
        binary_operator_of("!="@) == Some(BinaryOperator::NotEqual),
        binary_operator_of(">="@) == Some(BinaryOperator::GreaterEq),
        binary_operator_of("<="@) == Some(BinaryOperator::LessEq),
        unary_operator_of("!"@) == Some(UnaryOperator::Not),
        unary_operator_of("-"@) == Some(UnaryOperator::Minus),
{
    reveal_strlit("+");
    reveal_strlit("-");
    reveal_strlit("*");
    reveal_strlit("/");
    reveal_strlit(">");
    reveal_strlit("<");
    reveal_strlit("==");
    reveal_strlit("!=");
    reveal_strlit(">=");
    reveal_strlit("<=");
    reveal_strlit("!");
    assert("+"@[0] == '+' && "-"@[0] == '-' && "*"@[0] == '*' && "/"@[0] == '/');
    assert(">"@[0] == '>' && "<"@[0] == '<' && "!"@[0] == '!');
    assert("=="@[0] == '=' && "!="@[0] == '!' && ">="@[0] == '>' && "<="@[0] == '<');
    assert("+"@.len() == 1 && "-"@.len() == 1 && "*"@.len() == 1 && "/"@.len() == 1);
    assert(">"@.len() == 1 && "<"@.len() == 1 && "!"@.len() == 1);
    assert("=="@.len() == 2 && "!="@.len() == 2 && ">="@.len() == 2 && "<="@.len() == 2);
}

/// No two texts are the same operator: an operator is written in one way.
pub proof fn lemma_operators_are_told_apart(a: Seq<char>, b: Seq<char>)
    ensures
        binary_operator_of(a) is Some && binary_operator_of(a) == binary_operator_of(b) ==> a == b,
        unary_operator_of(a) is Some && unary_operator_of(a) == unary_operator_of(b) ==> a == b,
{
}

/// The integer literal that a `Number` stands for, where its text is a
/// numeral that 32 bits hold.
pub open spec fn ast_of_number(t: Tree) -> Option<Ast> {
    match parse_int_spec(t.text) {
        Some(i) => Some(Ast::Int(i)),
        None => None,
    }
}

/// The parameter list that a `DefArgList` stands for: the texts of the
/// nodes inside it.
pub open spec fn ast_of_def_arg_list(t: Tree) -> Ast {
    Ast::DefArgList(Seq::new(t.inner.len(), |i: int| t.inner[i].text))
}

/// The syntax trees of `items[i..]`, each read as an expression, behind
/// `acc`, where each of them has one.
pub open spec fn asts_of_expressions(items: Seq<Tree>, i: int, acc: Seq<Ast>) -> Option<Seq<Ast>>
    decreases items, items.len() - i,
{
    if i < 0 || i >= items.len() {
        Some(acc)
    } else {
        match ast_of_expression(items[i]) {
            None => None,
            Some(a) => asts_of_expressions(items, i + 1, acc.push(a)),
        }
    }
}

/// The argument list that an `ArgList` stands for.
pub open spec fn ast_of_arg_list(t: Tree) -> Option<Ast>
    decreases t, 0int,
{
    match asts_of_expressions(t.inner, 0, Seq::empty()) {
        Some(items) => Some(Ast::ArgList(items)),
        None => None,
    }
}

/// The call that a `FuncCall` stands for.
pub open spec fn ast_of_function_call(t: Tree) -> Option<Ast>
    decreases t, 0int,
{
    if t.rule != Rule::FuncCall {
        None
    } else if t.inner.len() < 2 {
        None
    } else {
        match ast_of_arg_list(t.inner[1]) {
            Some(args) => Some(Ast::FuncCall { name: t.inner[0].text, args: Box::new(args) }),
            None => None,
        }
    }
}

/// The syntax tree of an operand of a binary or unary expression.
pub open spec fn ast_of_term(t: Tree) -> Option<Ast>
    decreases t, 2int,
{
    match t.rule {
        Rule::Term => if t.inner.len() < 1 {
            None
        } else {
            match ast_of_term(t.inner[0]) {
                Some(a) => Some(Ast::Term(Box::new(a))),
                None => None,
            }
        },
        Rule::Number => ast_of_number(t),
        Rule::Expression => ast_of_expression(t),
        Rule::FuncCall => ast_of_function_call(t),
        Rule::Identifier => Some(Ast::Identifier(t.text)),
        _ => None,
    }
}

/// The syntax tree of a binary expression of which the first `2 * k - 1`
/// nodes are built into `lhs`: each further operator and operand make a
/// binary expression whose left operand is all that stands before them. So
/// the operators associate to the left.
pub open spec fn fold_operands(items: Seq<Tree>, k: int, lhs: Ast) -> Option<Ast>
    decreases items, items.len() - 2 * k + 1,
{
    if k < 1 || 2 * k - 1 >= items.len() {
        Some(lhs)
    } else if 2 * k >= items.len() {
        None
    } else {
        match ast_of_term(items[2 * k]) {
            None => None,
            Some(rhs) => match binary_operator_of(items[2 * k - 1].text) {
                None => None,
                Some(op) => fold_operands(
                    items,
                    k + 1,
                    Ast::BinaryExpression { lhs: Box::new(lhs), op, rhs: Box::new(rhs) },
                ),
            },
        }
    }
}

/// The syntax tree of an expression.
pub open spec fn ast_of_expression(t: Tree) -> Option<Ast>
    decreases t, 1int,
{
    match t.rule {
        Rule::Expression => if t.inner.len() < 1 {
            None
        } else {
            match ast_of_expression(t.inner[0]) {
                Some(a) => Some(Ast::Expression(Box::new(a))),
                None => None,
            }
        },
        Rule::Number => ast_of_number(t),
        Rule::UnaryExpression => if t.inner.len() < 2 {
            None
        } else {
            match ast_of_term(t.inner[1]) {
                None => None,
                Some(operand) => match unary_operator_of(t.inner[0].text) {
                    None => None,
                    Some(op) => Some(Ast::UnaryExpression { op, child: Box::new(operand) }),
                },
            }
        },
        Rule::BinaryExpression => if t.inner.len() < 3 {
            None
        } else {
            match ast_of_term(t.inner[0]) {
                None => None,
                Some(first) => fold_operands(t.inner, 1, first),
            }
        },
        Rule::FuncCall => ast_of_function_call(t),
        Rule::Identifier => Some(Ast::Identifier(t.text)),
        Rule::String => if t.text.len() < 2 {
            None
        } else {
            Some(Ast::Str(t.text.subrange(1, t.text.len() - 1)))
        },
        Rule::Boolean => if t.text == "True"@ {
            Some(Ast::Boolean(true))
        } else if t.text == "False"@ {
            Some(Ast::Boolean(false))
        } else {
            None
        },
        _ => None,
    }
}

/// The syntax trees of `items[i..]`, each read as a statement, behind
/// `acc`, where each of them has one.
pub open spec fn asts_of_statements(items: Seq<Tree>, i: int, acc: Seq<Ast>) -> Option<Seq<Ast>>
    decreases items, items.len() - i,
{
    if i < 0 || i >= items.len() {
        Some(acc)
    } else {
        match ast_of_statement(items[i]) {
            None => None,
            Some(a) => asts_of_statements(items, i + 1, acc.push(a)),
        }
    }
}

/// The block that a `Block` stands for.
pub open spec fn ast_of_block(t: Tree) -> Option<Ast>
    decreases t, 0int,
{
    if t.rule != Rule::Block {
        None
    } else {
        match asts_of_statements(t.inner, 0, Seq::empty()) {
            Some(items) => Some(Ast::Block(items)),
            None => None,
        }
    }
}

/// The header of a `for` loop that a `ForParams` stands for.
pub open spec fn ast_of_for_params(t: Tree) -> Option<Ast>
    decreases t, 0int,
{
    if t.inner.len() < 3 {
        None
    } else {
        match ast_of_statement(t.inner[0]) {
            None => None,
            Some(initialization) => match ast_of_expression(t.inner[1]) {
                None => None,
                Some(condition) => match ast_of_statement(t.inner[2]) {
                    None => None,
                    Some(updater) => Some(
                        Ast::ForLoopParams {
                            initialization: Box::new(initialization),
                            condition: Box::new(condition),
                            updater: Box::new(updater),
                        },
                    ),
                },
            },
        }
    }
}

/// The syntax tree of what a `Statement` holds.
pub open spec fn ast_of_statement(t: Tree) -> Option<Ast>
    decreases t, 0int,
{
    if t.inner.len() < 1 {
        None
    } else {
        let what = t.inner[0];
        match what.rule {
            Rule::VarDecl => if what.inner.len() < 1 {
                None
            } else if what.inner.len() < 2 {
                Some(Ast::VarDecl { name: what.inner[0].text, value: None })
            } else {
                match ast_of_expression(what.inner[1]) {
                    Some(v) => Some(Ast::VarDecl { name: what.inner[0].text, value: Some(Box::new(v)) }),
                    None => None,
                }
            },
            Rule::VarSet => if what.inner.len() < 2 {
                None
            } else {
                match ast_of_expression(what.inner[1]) {
                    Some(v) => Some(Ast::VarSet { name: what.inner[0].text, value: Box::new(v) }),
                    None => None,
                }
            },
            Rule::FuncCall => ast_of_function_call(what),
            Rule::FuncReturn => if what.inner.len() < 1 {
                None
            } else {
                match ast_of_expression(what.inner[0]) {
                    Some(v) => Some(Ast::FuncReturn(Box::new(v))),
                    None => None,
                }
            },
            Rule::ForLoop => if what.inner.len() < 2 {
                None
            } else {
                match ast_of_for_params(what.inner[0]) {
                    None => None,
                    Some(params) => match ast_of_block(what.inner[1]) {
                        None => None,
                        Some(body) => Some(
                            Ast::ForLoop { params: Box::new(params), body: Box::new(body) },
                        ),
                    },
                }
            },
            Rule::WhileLoop => if what.inner.len() < 2 {
                None
            } else {
                match ast_of_expression(what.inner[0]) {
                    None => None,
                    Some(condition) => match ast_of_block(what.inner[1]) {
                        None => None,
                        Some(body) => Some(
                            Ast::WhileLoop {
                                condition: Box::new(condition),
                                body: Box::new(body),
                            },
                        ),
                    },
                }
            },
            Rule::IfStatement => if what.inner.len() < 2 {
                None
            } else {
                match ast_of_expression(what.inner[0]) {
                    None => None,
                    Some(condition) => match ast_of_block(what.inner[1]) {
                        None => None,
                        Some(body) => Some(
                            Ast::IfStatement {
                                condition: Box::new(condition),
                                body: Box::new(body),
                            },
                        ),
                    },
                }
            },
            _ => None,
        }
    }
}

/// The function definition that a `FuncDef` stands for.
pub open spec fn ast_of_func_def(t: Tree) -> Option<Ast> {
    if t.inner.len() < 3 {
        None
    } else {
        match ast_of_block(t.inner[2]) {
            Some(body) => Some(
                Ast::FuncDef {
                    name: t.inner[0].text,
                    args: Box::new(ast_of_def_arg_list(t.inner[1])),
                    body: Box::new(body),
                },
            ),
            None => None,
        }
    }
}

/// The function definitions among `items[i..]`, behind `acc`, where each of
/// them has a syntax tree. The end of input gives none; nothing else may
/// stand there.
pub open spec fn asts_of_func_defs(items: Seq<Tree>, i: int, acc: Seq<Ast>) -> Option<Seq<Ast>>
    decreases items.len() - i,
{
    if i < 0 || i >= items.len() {
        Some(acc)
    } else {
        match items[i].rule {
            Rule::FuncDef => match ast_of_func_def(items[i]) {
                None => None,
                Some(a) => asts_of_func_defs(items, i + 1, acc.push(a)),
            },
            Rule::EOI => asts_of_func_defs(items, i + 1, acc),
            _ => None,
        }
    }
}

/// The program that a `Program` stands for.
pub open spec fn ast_of_root(t: Tree) -> Option<Ast> {
    match asts_of_func_defs(t.inner, 0, Seq::empty()) {
        Some(defs) => Some(Ast::Program(defs)),
        None => None,
    }
}

/// The syntax tree of a source text: the one built from the parse tree of
/// the text, read under a bound that the text cannot reach. A text that does
/// not follow the grammar has none.
pub open spec fn parse_spec(s: Seq<char>) -> Option<Ast> {
    match program(s, enough(s)) {
        Some(t) => match ast_of_root(t) {
            Some(a) => Some(a),
            None => None,
        },
        None => None,
    }
}

/// Tests whether `text` is `lit`.
fn text_is(text: &String, lit: &str) -> (r: bool)
    ensures
        r == (text@ == lit@),
{
    *text == String::from_str(lit)
}

/// Appends `a` to `v`.
fn push_node(v: &mut Vec<Box<AstNode>>, a: AstNode)
    ensures
        nodes_model(final(v)) == nodes_model(old(v)).push(a@),
{
    v.push(Box::new(a));
    assert(nodes_model(v) =~= nodes_model(old(v)).push(a@));
}

/// Builds the binary operator that `pair` holds.
pub fn parse_binary_operator(pair: &Pair) -> (r: BinaryOperator)
    requires
        binary_operator_of(pair@.text) is Some,
    ensures
        Some(r) == binary_operator_of(pair@.text),
{
    if text_is(&pair.text, "+") {
        BinaryOperator::Add
    } else if text_is(&pair.text, "-") {
        BinaryOperator::Subtract
    } else if text_is(&pair.text, "*") {
        BinaryOperator::Multiply
    } else if text_is(&pair.text, "/") {
        BinaryOperator::Divide
    } else if text_is(&pair.text, ">") {
        BinaryOperator::Greater
    } else if text_is(&pair.text, "<") {
        BinaryOperator::Less
    } else if text_is(&pair.text, "==") {
        BinaryOperator::Equal
    } else if text_is(&pair.text, "!=") {
        BinaryOperator::NotEqual
    } else if text_is(&pair.text, ">=") {
        BinaryOperator::GreaterEq
    } else {
        BinaryOperator::LessEq
    }
}

/// Builds the unary operator that `pair` holds.
pub fn parse_unary_operator(pair: &Pair) -> (r: UnaryOperator)
    requires
        unary_operator_of(pair@.text) is Some,
    ensures
        Some(r) == unary_operator_of(pair@.text),
{
    if text_is(&pair.text, "!") {
        UnaryOperator::Not
    } else {
        UnaryOperator::Minus
    }
}

/// Builds the binary expression of `lhs`, the operator in `op` and `rhs`.
pub fn parse_binary_expression(lhs: AstNode, op: &Pair, rhs: AstNode) -> (r: AstNode)
    requires
        binary_operator_of(op@.text) is Some,
    ensures
        r@ == (Ast::BinaryExpression {
            lhs: Box::new(lhs@),
            op: binary_operator_of(op@.text)->0,
            rhs: Box::new(rhs@),
        }),
{
    AstNode::BinaryExpression {
        lhs: Box::new(lhs),
        op: parse_binary_operator(op),
        rhs: Box::new(rhs),
    }
}

/// Builds the unary expression of the operator in `pair` and `child`.
pub fn parse_unary_expression(pair: &Pair, child: AstNode) -> (r: AstNode)
    requires
        unary_operator_of(pair@.text) is Some,
    ensures
        r@ == (Ast::UnaryExpression {
            op: unary_operator_of(pair@.text)->0,
            child: Box::new(child@),
        }),
{
    AstNode::UnaryExpression { op: parse_unary_operator(pair), child: Box::new(child) }
}

/// Builds the integer literal of a `Number`.
pub fn parse_number(pair: &Pair) -> (r: AstNode)
    requires
        ast_of_number(pair@) is Some,
    ensures
        Some(r@) == ast_of_number(pair@),
        is_expression(r@),
{
    let value = parse_int(pair.text.as_str()).unwrap();
    AstNode::Int(value)
}

/// Builds the parameter list of a `DefArgList`.
pub fn parse_def_arg_list(pair: &Pair) -> (r: AstNode)
    ensures
        r@ == ast_of_def_arg_list(pair@),
{
    let mut args: Vec<String> = Vec::new();
    let mut i: usize = 0;
    while i < pair.inner.len()
        invariant
            i <= pair.inner.len(),
            args.len() == i,
            forall|j: int| 0 <= j < i ==> (#[trigger] args@[j])@ == pair@.inner[j].text,
        decreases pair.inner.len() - i,
    {
        assert(pair@.inner[i as int] == pair.inner@[i as int]@);
        args.push(pair.inner[i].text.clone());
        i += 1;
    }
    let r = AstNode::DefArgList(args);
    assert(names_model(&args) =~= Seq::new(pair@.inner.len(), |i: int| pair@.inner[i].text));
    r
}

/// Builds the argument list of an `ArgList`.
pub fn build_ast_from_arg_list(pair: &Pair) -> (r: AstNode)
    requires
        ast_of_arg_list(pair@) is Some,
    ensures
        Some(r@) == ast_of_arg_list(pair@),
        r@ matches Ast::ArgList(items) && all_expressions(items),
    decreases pair, 0int,
{
    let mut args: Vec<Box<AstNode>> = Vec::new();
    assert(nodes_model(&args) =~= Seq::empty());
    let mut i: usize = 0;
    while i < pair.inner.len()
        invariant
            i <= pair.inner.len(),
            all_expressions(nodes_model(&args)),
            asts_of_expressions(pair@.inner, 0, Seq::empty()) is Some,
            asts_of_expressions(pair@.inner, 0, Seq::empty()) == asts_of_expressions(
                pair@.inner,
                i as int,
                nodes_model(&args),
            ),
        decreases pair.inner.len() - i,
    {
        assert(pair@.inner[i as int] == pair.inner@[i as int]@);
        let a = build_ast_from_expression(&pair.inner[i]);
        push_node(&mut args, a);
        i += 1;
    }
    AstNode::ArgList(args)
}

/// Builds the call of a `FuncCall`.
pub fn build_ast_from_function_call(pair: &Pair) -> (r: AstNode)
    requires
        ast_of_function_call(pair@) is Some,
    ensures
        Some(r@) == ast_of_function_call(pair@),
        is_expression(r@),
    decreases pair, 0int,
{
    assert(pair@.inner[0] == pair.inner@[0]@);
    assert(pair@.inner[1] == pair.inner@[1]@);
    let name = pair.inner[0].text.clone();
    let arg_list = build_ast_from_arg_list(&pair.inner[1]);
    AstNode::FuncCall { name, args: Box::new(arg_list) }
}

/// Builds the syntax tree of an operand of a binary or unary expression.
pub fn build_ast_from_term(pair: &Pair) -> (r: AstNode)
    requires
        ast_of_term(pair@) is Some,
    ensures
        Some(r@) == ast_of_term(pair@),
        is_expression(r@),
    decreases pair, 2int,
{
    match pair.rule {
        Rule::Term => {
            assert(pair@.inner[0] == pair.inner@[0]@);
            AstNode::Term(Box::new(build_ast_from_term(&pair.inner[0])))
        },
        Rule::Number => parse_number(pair),
        Rule::Expression => build_ast_from_expression(pair),
        Rule::FuncCall => build_ast_from_function_call(pair),
        _ => AstNode::Identifier(pair.text.clone()),
    }
}

/// Builds the syntax tree of an expression.
pub fn build_ast_from_expression(pair: &Pair) -> (r: AstNode)
    requires
        ast_of_expression(pair@) is Some,
    ensures
        Some(r@) == ast_of_expression(pair@),
        is_expression(r@),
    decreases pair, 1int,
{
    match pair.rule {
        Rule::Expression => {
            assert(pair@.inner[0] == pair.inner@[0]@);
            AstNode::Expression(Box::new(build_ast_from_expression(&pair.inner[0])))
        },
        Rule::Number => parse_number(pair),
        Rule::UnaryExpression => {
            assert(pair@.inner[0] == pair.inner@[0]@);
            assert(pair@.inner[1] == pair.inner@[1]@);
            let child = build_ast_from_term(&pair.inner[1]);
            parse_unary_expression(&pair.inner[0], child)
        },
        Rule::BinaryExpression => {
            let n = pair.inner.len();
            assert(pair@.inner[0] == pair.inner@[0]@);
            let mut retval = build_ast_from_term(&pair.inner[0]);
            let mut at: usize = 1;
            while at < n
                invariant
                    n == pair.inner.len(),
                    n >= 3,
                    1 <= at <= n + 1,
                    at % 2 == 1,
                    is_expression(retval@),
                    ast_of_expression(pair@) is Some,
                    ast_of_expression(pair@) == fold_operands(
                        pair@.inner,
                        (at + 1) / 2,
                        retval@,
                    ),
                decreases n + 1 - at,
            {
                assert(pair@.inner[at as int] == pair.inner@[at as int]@);
                assert(at + 1 < n);
                assert(pair@.inner[at + 1] == pair.inner@[at + 1]@);
                let rhs = build_ast_from_term(&pair.inner[at + 1]);
                retval = parse_binary_expression(retval, &pair.inner[at], rhs);
                at += 2;
            }
            retval
        },
        Rule::FuncCall => build_ast_from_function_call(pair),
        Rule::Identifier => AstNode::Identifier(pair.text.clone()),
        Rule::String => {
            let n = pair.text.as_str().unicode_len();
            AstNode::Str(String::from_str(pair.text.as_str().substring_char(1, n - 1)))
        },
        _ => AstNode::Boolean(text_is(&pair.text, "True")),
    }
}

/// Builds the header of a `for` loop.
pub fn parse_for_params(pair: &Pair) -> (r: AstNode)
    requires
        ast_of_for_params(pair@) is Some,
    ensures
        Some(r@) == ast_of_for_params(pair@),
        r@ matches Ast::ForLoopParams { initialization, condition, updater }
            && initialization.plain() && is_expression(*condition) && updater.plain(),
    decreases pair, 0int,
{
    assert(pair@.inner[0] == pair.inner@[0]@);
    assert(pair@.inner[1] == pair.inner@[1]@);
    assert(pair@.inner[2] == pair.inner@[2]@);
    let initialization = build_ast_from_statement(&pair.inner[0]);
    let condition = build_ast_from_expression(&pair.inner[1]);
    let updater = build_ast_from_statement(&pair.inner[2]);
    AstNode::ForLoopParams {
        initialization: Box::new(initialization),
        condition: Box::new(condition),
        updater: Box::new(updater),
    }
}

/// Builds the block of a `Block`.
pub fn build_ast_from_block(pair: &Pair) -> (r: AstNode)
    requires
        ast_of_block(pair@) is Some,
    ensures
        Some(r@) == ast_of_block(pair@),
        r@.plain(),
    decreases pair, 0int,
{
    let mut statement_vec: Vec<Box<AstNode>> = Vec::new();
    assert(nodes_model(&statement_vec) =~= Seq::empty());
    let mut i: usize = 0;
    while i < pair.inner.len()
        invariant
            i <= pair.inner.len(),
            pair.rule == Rule::Block,
            all_plain(nodes_model(&statement_vec)),
            asts_of_statements(pair@.inner, 0, Seq::empty()) is Some,
            asts_of_statements(pair@.inner, 0, Seq::empty()) == asts_of_statements(
                pair@.inner,
                i as int,
                nodes_model(&statement_vec),
            ),
        decreases pair.inner.len() - i,
    {
        assert(pair@.inner[i as int] == pair.inner@[i as int]@);
        let a = build_ast_from_statement(&pair.inner[i]);
        push_node(&mut statement_vec, a);
        i += 1;
    }
    AstNode::Block(statement_vec)
}

/// Builds the syntax tree of what a `Statement` holds.
pub fn build_ast_from_statement(pair: &Pair) -> (r: AstNode)
    requires
        ast_of_statement(pair@) is Some,
    ensures
        Some(r@) == ast_of_statement(pair@),
        r@.plain(),
    decreases pair, 0int,
{
    assert(pair@.inner[0] == pair.inner@[0]@);
    let what = &pair.inner[0];
    let n = what.inner.len();
    proof {
        if n >= 1 {
            assert(what@.inner[0] == what.inner@[0]@);
        }
        if n >= 2 {
            assert(what@.inner[1] == what.inner@[1]@);
        }
    }
    match what.rule {
        Rule::VarDecl => {
            let name = what.inner[0].text.clone();
            if n < 2 {
                AstNode::VarDecl { name, value: None }
            } else {
                let value = build_ast_from_expression(&what.inner[1]);
                AstNode::VarDecl { name, value: Some(Box::new(value)) }
            }
        },
        Rule::VarSet => {
            let name = what.inner[0].text.clone();
            let value = build_ast_from_expression(&what.inner[1]);
            AstNode::VarSet { name, value: Box::new(value) }
        },
        Rule::FuncCall => build_ast_from_function_call(what),
        Rule::FuncReturn => AstNode::FuncReturn(
            Box::new(build_ast_from_expression(&what.inner[0])),
        ),
        Rule::ForLoop => {
            let for_params = parse_for_params(&what.inner[0]);
            let block = build_ast_from_block(&what.inner[1]);
            AstNode::ForLoop { params: Box::new(for_params), body: Box::new(block) }
        },
        Rule::WhileLoop => {
            let condition = build_ast_from_expression(&what.inner[0]);
            let block = build_ast_from_block(&what.inner[1]);
            AstNode::WhileLoop { condition: Box::new(condition), body: Box::new(block) }
        },
        _ => {
            let condition = build_ast_from_expression(&what.inner[0]);
            let block = build_ast_from_block(&what.inner[1]);
            AstNode::IfStatement { condition: Box::new(condition), body: Box::new(block) }
        },
    }
}

/// Builds the function definition of a `FuncDef`.
pub fn parse_func_def(pair: &Pair) -> (r: AstNode)
    requires
        ast_of_func_def(pair@) is Some,
    ensures
        Some(r@) == ast_of_func_def(pair@),
        r@.plain(),
        r@ is FuncDef,
{
    assert(pair@.inner[0] == pair.inner@[0]@);
    assert(pair@.inner[1] == pair.inner@[1]@);
    assert(pair@.inner[2] == pair.inner@[2]@);
    let name = pair.inner[0].text.clone();
    let args = parse_def_arg_list(&pair.inner[1]);
    let body = build_ast_from_block(&pair.inner[2]);
    AstNode::FuncDef { name, args: Box::new(args), body: Box::new(body) }
}

/// Builds the program of a `Program`.
pub fn build_ast_from_root(pair: &Pair) -> (r: AstNode)
    requires
        ast_of_root(pair@) is Some,
    ensures
        Some(r@) == ast_of_root(pair@),
        r@.plain(),
        r@.definitions_only(),
{
    let mut func_defs: Vec<Box<AstNode>> = Vec::new();
    assert(nodes_model(&func_defs) =~= Seq::empty());
    let mut i: usize = 0;
    while i < pair.inner.len()
        invariant
            i <= pair.inner.len(),
            all_plain(nodes_model(&func_defs)),
            forall|j: int|
                0 <= j < nodes_model(&func_defs).len() ==> (#[trigger] nodes_model(
                    &func_defs,
                )[j]) is FuncDef,
            asts_of_func_defs(pair@.inner, 0, Seq::empty()) is Some,
            asts_of_func_defs(pair@.inner, 0, Seq::empty()) == asts_of_func_defs(
                pair@.inner,
                i as int,
                nodes_model(&func_defs),
            ),
        decreases pair.inner.len() - i,
    {
        assert(pair@.inner[i as int] == pair.inner@[i as int]@);
        match pair.inner[i].rule {
            Rule::FuncDef => {
                let a = parse_func_def(&pair.inner[i]);
                push_node(&mut func_defs, a);
            },
            _ => {},
        }
        i += 1;
    }
    AstNode::Program(func_defs)
}

/// Reads `source` into its syntax tree.
///
/// It succeeds on every text that follows the grammar, and on no other: it
/// reads under the bound `enough`, under which a text is read, and an error
/// found, as under every larger bound. The tree it returns is plain, and so
/// can be evaluated, and holds function definitions only.
pub fn parse(source: &str) -> (r: Result<AstNode, ParseError>)
    ensures
        match r {
            Ok(a) => program(source@, enough(source@)) is Some && parse_spec(source@) == Some(a@)
                && a@.plain() && a@.definitions_only() && a@.evaluable(),
            Err(ParseError::Syntax { position }) => program(source@, enough(source@)) is None
                && position == blame_program(source@, enough(source@)) && position
                <= source@.len(),
        },
{
    let input = Input::new(source);
    let depth = enough_for(&input);
    let pair = match program_at(&input, depth) {
        Ok(pair) => pair,
        Err(position) => {
            return Err(ParseError::Syntax { position });
        },
    };
    proof {
        lemma_program_builds(source@, enough(source@));
    }
    let ast = build_ast_from_root(&pair);
    proof {
        lemma_plain_is_evaluable(ast@);
    }
    Ok(ast)
}

} // verus!
