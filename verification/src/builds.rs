//! Every parse tree that the grammar reads has a syntax tree: the building
//! functions take what the grammar gives.

use crate::grammar::{
    any_statement, arg_list, binary_operator, block, boolean, conditional, def_arg_list,
    expression, for_loop, for_params, func_call, func_def, func_defs, func_return, identifier,
    more_arguments, number, operands, parenthesized, program, scan_digits, statement, statements,
    string, term, tree, unary_expression, unary_operator, var_decl, var_set, Rule, Tree,
};
use crate::parser::{
    ast_of_arg_list, ast_of_block, ast_of_expression, ast_of_for_params, ast_of_func_def,
    ast_of_function_call, ast_of_number, ast_of_root, ast_of_statement, ast_of_term,
    asts_of_expressions, asts_of_func_defs, asts_of_statements, binary_operator_of,
    fold_operands, unary_operator_of,
};
use crate::ast::Ast;
use crate::text::{all_digits, is_digit, lemma_skip_space, skip_space};
use vstd::prelude::*;

verus! {

/// The digits that `Number` scans are digits.
pub proof fn lemma_scanned_digits(s: Seq<char>, from: int, i: int)
    requires
        0 <= from <= i <= s.len(),
        all_digits(s.subrange(from, i)),
    ensures
        i <= scan_digits(s, i) <= s.len(),
        all_digits(s.subrange(from, scan_digits(s, i))),
    decreases s.len() - i,
{
    if i < s.len() && is_digit(s[i]) {
        assert forall|j: int| 0 <= j < i + 1 - from implies is_digit(
            #[trigger] s.subrange(from, i + 1)[j],
        ) by {
            if j < i - from {
                assert(s.subrange(from, i + 1)[j] == s.subrange(from, i)[j]);
            }
        }
        lemma_scanned_digits(s, from, i + 1);
    }
}

/// A `Number` that the grammar reads is a numeral that 32 bits hold.
pub proof fn lemma_number_builds(s: Seq<char>, pos: int)
    requires
        0 <= pos <= s.len(),
    ensures
        number(s, pos) matches Some((t, end)) ==> t.rule == Rule::Number && ast_of_number(t) is Some
            && ast_of_expression(t) is Some && ast_of_term(t) is Some && pos <= end <= s.len(),
{
    lemma_skip_space(s, pos);
    let p = skip_space(s, pos);
    if p < s.len() && is_digit(s[p]) {
        assert(s.subrange(p, p + 1) =~= seq![s[p]]);
        lemma_scanned_digits(s, p, p + 1);
        let end = scan_digits(s, p + 1);
        let text = s.subrange(p, end);
        assert(text[0] == s[p]);
        crate::text::lemma_digits_value_grows(text, 0);
    }
}

/// A `String` that the grammar reads has its two quotes.
pub proof fn lemma_string_builds(s: Seq<char>, pos: int)
    requires
        0 <= pos <= s.len(),
    ensures
        string(s, pos) matches Some((t, end)) ==> t.rule == Rule::String && ast_of_expression(
            t,
        ) is Some && pos <= end <= s.len(),
{
    lemma_skip_space(s, pos);
    let p = skip_space(s, pos);
    if p < s.len() && s[p] == '"' {
        lemma_scan_string_bounds(s, p + 1);
    }
}

/// The closing quote is sought behind the opening one.
pub proof fn lemma_scan_string_bounds(s: Seq<char>, i: int)
    requires
        0 <= i <= s.len(),
    ensures
        i <= crate::grammar::scan_string(s, i) <= s.len(),
    decreases s.len() - i,
{
    if i < s.len() && s[i] != '"' {
        lemma_scan_string_bounds(s, i + 1);
    }
}

/// A `Boolean` that the grammar reads is spelled `True` or `False`.
pub proof fn lemma_boolean_builds(s: Seq<char>, pos: int)
    requires
        0 <= pos <= s.len(),
    ensures
        boolean(s, pos) matches Some((t, end)) ==> t.rule == Rule::Boolean && ast_of_expression(
            t,
        ) is Some && pos <= end <= s.len(),
{
    lemma_token_bounds(s, pos, "True"@);
    lemma_token_bounds(s, pos, "False"@);
}

/// A `BinaryOperator` that the grammar reads is an operator of the language.
pub proof fn lemma_binary_operator_builds(s: Seq<char>, pos: int)
    ensures
        binary_operator(s, pos) matches Some((t, _)) ==> binary_operator_of(t.text) is Some,
{
    reveal_strlit("==");
    reveal_strlit("!=");
    reveal_strlit(">=");
    reveal_strlit("<=");
    reveal_strlit("+");
    reveal_strlit("-");
    reveal_strlit("*");
    reveal_strlit("/");
    reveal_strlit(">");
    reveal_strlit("<");
}

/// A `UnaryOperator` that the grammar reads is an operator of the language.
pub proof fn lemma_unary_operator_builds(s: Seq<char>, pos: int)
    ensures
        unary_operator(s, pos) matches Some((t, _)) ==> unary_operator_of(t.text) is Some,
{
    reveal_strlit("-");
    reveal_strlit("!");
}

/// Whether `items` are operands with an operator between each two, all of
/// which can be built.
pub open spec fn operand_list(items: Seq<Tree>) -> bool {
    &&& items.len() % 2 == 1
    &&& forall|i: int|
        0 <= i < items.len() && i % 2 == 0 ==> ast_of_term(#[trigger] items[i]) is Some
    &&& forall|i: int|
        0 <= i < items.len() && i % 2 == 1 ==> binary_operator_of((#[trigger] items[i]).text) is Some
}

/// Operands with an operator between each two fold into a syntax tree.
pub proof fn lemma_fold_builds(items: Seq<Tree>, k: int, lhs: Ast)
    requires
        operand_list(items),
        k >= 1,
    ensures
        fold_operands(items, k, lhs) is Some,
    decreases items.len() - 2 * k + 1,
{
    if 2 * k - 1 < items.len() {
        assert(ast_of_term(items[2 * k]) is Some);
        assert(binary_operator_of(items[2 * k - 1].text) is Some);
        let rhs = ast_of_term(items[2 * k])->0;
        let op = binary_operator_of(items[2 * k - 1].text)->0;
        lemma_fold_builds(
            items,
            k + 1,
            Ast::BinaryExpression { lhs: Box::new(lhs), op, rhs: Box::new(rhs) },
        );
    }
}

/// Whether each of `items` can be built as an expression.
pub open spec fn expression_list(items: Seq<Tree>) -> bool {
    forall|i: int| 0 <= i < items.len() ==> ast_of_expression(#[trigger] items[i]) is Some
}

/// Whether each of `items` can be built as a statement.
pub open spec fn statement_list(items: Seq<Tree>) -> bool {
    forall|i: int| 0 <= i < items.len() ==> ast_of_statement(#[trigger] items[i]) is Some
}

/// Whether each of `items` is a function definition that can be built.
pub open spec fn func_def_list(items: Seq<Tree>) -> bool {
    forall|i: int|
        0 <= i < items.len() ==> (#[trigger] items[i]).rule == Rule::FuncDef && ast_of_func_def(
            items[i],
        ) is Some
}

/// Expressions that can each be built can be built as a list.
pub proof fn lemma_expressions_build(items: Seq<Tree>, i: int, acc: Seq<Ast>)
    requires
        expression_list(items),
        0 <= i,
    ensures
        asts_of_expressions(items, i, acc) is Some,
    decreases items.len() - i,
{
    if i < items.len() {
        lemma_expressions_build(items, i + 1, acc.push(ast_of_expression(items[i])->0));
    }
}

/// Statements that can each be built can be built as a list.
pub proof fn lemma_statements_build(items: Seq<Tree>, i: int, acc: Seq<Ast>)
    requires
        statement_list(items),
        0 <= i,
    ensures
        asts_of_statements(items, i, acc) is Some,
    decreases items.len() - i,
{
    if i < items.len() {
        lemma_statements_build(items, i + 1, acc.push(ast_of_statement(items[i])->0));
    }
}

/// Function definitions that can each be built, with the end of input
/// behind them, can be built as a program.
pub proof fn lemma_func_defs_build(items: Seq<Tree>, i: int, acc: Seq<Ast>)
    requires
        items.len() >= 1,
        func_def_list(items.drop_last()),
        items.last().rule == Rule::EOI,
        0 <= i,
    ensures
        asts_of_func_defs(items, i, acc) is Some,
    decreases items.len() - i,
{
    if i < items.len() - 1 {
        assert(items[i] == items.drop_last()[i]);
        lemma_func_defs_build(items, i + 1, acc.push(ast_of_func_def(items[i])->0));
    } else if i == items.len() - 1 {
        lemma_func_defs_build(items, i + 1, acc);
    }
}

/// Whether `what` can be built as what a statement holds.
pub open spec fn statement_body(what: Tree) -> bool {
    ast_of_statement(Tree { rule: Rule::Statement, text: Seq::empty(), inner: seq![what] }) is Some
}

/// An `Expression` that the grammar reads can be built.
pub proof fn lemma_expression_builds(s: Seq<char>, pos: int, depth: nat)
    requires
        0 <= pos <= s.len(),
    ensures
        expression(s, pos, depth) matches Some((t, end)) ==> t.rule == Rule::Expression
            && ast_of_expression(t) is Some && pos <= end <= s.len(),
    decreases depth, 0int,
{
    if depth > 0 {
        let d = (depth - 1) as nat;
        lemma_unary_expression_builds(s, pos, d);
        lemma_term_builds(s, pos, d);
        lemma_boolean_builds(s, pos);
        lemma_string_builds(s, pos);
        lemma_identifier_builds(s, pos);
        lemma_skip_space(s, pos);
        if unary_expression(s, pos, d) is None {
            match term(s, pos, d) {
                Some((first, after_first)) => {
                    assert(operand_list(seq![first]));
                    lemma_operands_build(s, after_first, d, seq![first]);
                    let (items, end) = operands(s, after_first, d, seq![first]);
                    if items.len() >= 3 {
                        assert(ast_of_term(items[0]) is Some);
                        lemma_fold_builds(items, 1, ast_of_term(items[0])->0);
                        let binary = tree(Rule::BinaryExpression, s, skip_space(s, pos), end, items);
                        assert(ast_of_expression(binary) is Some);
                    }
                },
                None => {},
            }
        }
    }
}

/// A symbol and a word that the grammar reads end within the text.
pub proof fn lemma_token_bounds(s: Seq<char>, pos: int, lit: Seq<char>)
    requires
        0 <= pos <= s.len(),
    ensures
        crate::grammar::symbol(s, pos, lit) matches Some(end) ==> pos <= end <= s.len(),
        crate::grammar::keyword(s, pos, lit) matches Some(end) ==> pos <= end <= s.len(),
{
    lemma_skip_space(s, pos);
}

/// An `Identifier` that the grammar reads can be built, as an expression
/// and as a term.
pub proof fn lemma_identifier_builds(s: Seq<char>, pos: int)
    requires
        0 <= pos <= s.len(),
    ensures
        identifier(s, pos) matches Some((t, end)) ==> t.rule == Rule::Identifier
            && ast_of_expression(t) is Some && ast_of_term(t) is Some && pos <= end <= s.len(),
{
    lemma_skip_space(s, pos);
    let p = skip_space(s, pos);
    if p < s.len() {
        lemma_scan_ident_bounds(s, p + 1);
    }
}

/// An operator that the grammar reads ends within the text, behind where
/// it was sought.
pub proof fn lemma_operator_bounds(s: Seq<char>, pos: int)
    requires
        0 <= pos <= s.len(),
    ensures
        binary_operator(s, pos) matches Some((_, end)) ==> pos < end <= s.len(),
        unary_operator(s, pos) matches Some((_, end)) ==> pos < end <= s.len(),
{
    reveal_strlit("==");
    reveal_strlit("!=");
    reveal_strlit(">=");
    reveal_strlit("<=");
    reveal_strlit("+");
    reveal_strlit("-");
    reveal_strlit("*");
    reveal_strlit("/");
    reveal_strlit(">");
    reveal_strlit("<");
    reveal_strlit("!");
    lemma_skip_space(s, pos);
}

/// An identifier is scanned within the text.
pub proof fn lemma_scan_ident_bounds(s: Seq<char>, i: int)
    requires
        0 <= i <= s.len(),
    ensures
        i <= crate::grammar::scan_ident(s, i) <= s.len(),
    decreases s.len() - i,
{
    if i < s.len() && crate::grammar::is_ident_char(s[i]) {
        lemma_scan_ident_bounds(s, i + 1);
    }
}

/// An expression in parentheses that the grammar reads can be built.
pub proof fn lemma_parenthesized_builds(s: Seq<char>, pos: int, depth: nat)
    requires
        0 <= pos <= s.len(),
    ensures
        parenthesized(s, pos, depth) matches Some((t, end)) ==> t.rule == Rule::Expression
            && ast_of_expression(t) is Some && ast_of_term(t) is Some && pos <= end <= s.len(),
    decreases depth, 0int,
{
    if depth > 0 {
        lemma_token_bounds(s, pos, "("@);
        match crate::grammar::symbol(s, pos, "("@) {
            Some(open) => {
                lemma_expression_builds(s, open, (depth - 1) as nat);
                match expression(s, open, (depth - 1) as nat) {
                    Some((t, end)) => {
                        lemma_token_bounds(s, end, ")"@);
                    },
                    None => {},
                }
            },
            None => {},
        }
    }
}

/// A `Term` that the grammar reads can be built.
pub proof fn lemma_term_builds(s: Seq<char>, pos: int, depth: nat)
    requires
        0 <= pos <= s.len(),
    ensures
        term(s, pos, depth) matches Some((t, end)) ==> t.rule == Rule::Term && ast_of_term(t) is Some
            && t.inner.len() == 1 && ast_of_expression(t.inner[0]) is Some && pos <= end <= s.len(),
    decreases depth, 0int,
{
    if depth > 0 {
        let d = (depth - 1) as nat;
        lemma_number_builds(s, pos);
        lemma_parenthesized_builds(s, pos, d);
        lemma_func_call_builds(s, pos, d);
        lemma_identifier_builds(s, pos);
    }
}

/// The operators and operands that the grammar reads behind a list of
/// them make a list of them.
pub proof fn lemma_operands_build(s: Seq<char>, pos: int, depth: nat, acc: Seq<Tree>)
    requires
        0 <= pos <= s.len(),
        operand_list(acc),
    ensures
        operand_list(operands(s, pos, depth, acc).0),
        pos <= operands(s, pos, depth, acc).1 <= s.len(),
    decreases depth, s.len() - pos,
{
    if depth > 0 {
        lemma_binary_operator_builds(s, pos);
        lemma_operator_bounds(s, pos);
        match binary_operator(s, pos) {
            Some((op, after_op)) => {
                lemma_term_builds(s, after_op, (depth - 1) as nat);
                match term(s, after_op, (depth - 1) as nat) {
                    Some((t, end)) => {
                        if pos < end <= s.len() {
                            let next = acc.push(op).push(t);
                            assert(operand_list(next)) by {
                                assert forall|i: int|
                                    0 <= i < next.len() && i % 2 == 0 implies ast_of_term(
                                    #[trigger] next[i],
                                ) is Some by {
                                    if i < acc.len() {
                                        assert(next[i] == acc[i]);
                                    }
                                }
                                assert forall|i: int|
                                    0 <= i < next.len() && i % 2 == 1 implies binary_operator_of(
                                    (#[trigger] next[i]).text,
                                ) is Some by {
                                    if i < acc.len() {
                                        assert(next[i] == acc[i]);
                                    }
                                }
                            }
                            lemma_operands_build(s, end, depth, next);
                        }
                    },
                    None => {},
                }
            },
            None => {},
        }
    }
}

/// A `UnaryExpression` that the grammar reads can be built.
pub proof fn lemma_unary_expression_builds(s: Seq<char>, pos: int, depth: nat)
    requires
        0 <= pos <= s.len(),
    ensures
        unary_expression(s, pos, depth) matches Some((t, end)) ==> t.rule == Rule::UnaryExpression
            && ast_of_expression(t) is Some && pos <= end <= s.len(),
    decreases depth, 0int,
{
    if depth > 0 {
        lemma_unary_operator_builds(s, pos);
        lemma_operator_bounds(s, pos);
        match unary_operator(s, pos) {
            Some((op, after_op)) => {
                lemma_term_builds(s, after_op, (depth - 1) as nat);
            },
            None => {},
        }
    }
}

/// The expressions that the grammar reads behind a list of expressions
/// make a list of expressions.
pub proof fn lemma_more_arguments_build(s: Seq<char>, pos: int, depth: nat, acc: Seq<Tree>)
    requires
        0 <= pos <= s.len(),
        expression_list(acc),
    ensures
        expression_list(more_arguments(s, pos, depth, acc).0),
        pos <= more_arguments(s, pos, depth, acc).1 <= s.len(),
    decreases depth, s.len() - pos,
{
    if depth > 0 {
        lemma_token_bounds(s, pos, ","@);
        match crate::grammar::symbol(s, pos, ","@) {
            Some(after_comma) => {
                lemma_expression_builds(s, after_comma, (depth - 1) as nat);
                match expression(s, after_comma, (depth - 1) as nat) {
                    Some((t, end)) => {
                        if pos < end <= s.len() {
                            let next = acc.push(t);
                            assert forall|i: int| 0 <= i < next.len() implies ast_of_expression(
                                #[trigger] next[i],
                            ) is Some by {
                                if i < acc.len() {
                                    assert(next[i] == acc[i]);
                                }
                            }
                            lemma_more_arguments_build(s, end, depth, next);
                        }
                    },
                    None => {},
                }
            },
            None => {},
        }
    }
}

/// An `ArgList` that the grammar reads can be built.
pub proof fn lemma_arg_list_builds(s: Seq<char>, pos: int, depth: nat)
    requires
        0 <= pos <= s.len(),
    ensures
        arg_list(s, pos, depth) matches Some((t, end)) ==> ast_of_arg_list(t) is Some && pos <= end
            <= s.len(),
    decreases depth, 0int,
{
    if depth > 0 {
        let d = (depth - 1) as nat;
        lemma_skip_space(s, pos);
        lemma_expression_builds(s, pos, d);
        match expression(s, pos, d) {
            Some((first, after_first)) => {
                assert(expression_list(seq![first]));
                lemma_more_arguments_build(s, after_first, d, seq![first]);
                let (items, end) = more_arguments(s, after_first, d, seq![first]);
                lemma_expressions_build(items, 0, Seq::empty());
            },
            None => {
                lemma_expressions_build(Seq::empty(), 0, Seq::empty());
            },
        }
    }
}

/// A `FuncCall` that the grammar reads can be built.
pub proof fn lemma_func_call_builds(s: Seq<char>, pos: int, depth: nat)
    requires
        0 <= pos <= s.len(),
    ensures
        func_call(s, pos, depth) matches Some((t, end)) ==> t.rule == Rule::FuncCall
            && ast_of_function_call(t) is Some && ast_of_expression(t) is Some && ast_of_term(t) is Some
            && statement_body(t) && pos <= end <= s.len(),
    decreases depth, 0int,
{
    if depth > 0 {
        lemma_identifier_builds(s, pos);
        match identifier(s, pos) {
            Some((name, after_name)) => {
                lemma_token_bounds(s, after_name, "("@);
                match crate::grammar::symbol(s, after_name, "("@) {
                    Some(open) => {
                        lemma_arg_list_builds(s, open, (depth - 1) as nat);
                        match arg_list(s, open, (depth - 1) as nat) {
                            Some((args, after_args)) => {
                                lemma_token_bounds(s, after_args, ")"@);
                            },
                            None => {},
                        }
                    },
                    None => {},
                }
            },
            None => {},
        }
    }
}

/// A `VarDecl` that the grammar reads can be built.
pub proof fn lemma_var_decl_builds(s: Seq<char>, pos: int, depth: nat)
    requires
        0 <= pos <= s.len(),
    ensures
        var_decl(s, pos, depth) matches Some((t, end)) ==> statement_body(t) && pos <= end
            <= s.len(),
    decreases depth, 0int,
{
    if depth > 0 {
        lemma_token_bounds(s, pos, "let"@);
        match crate::grammar::keyword(s, pos, "let"@) {
            Some(after_let) => {
                lemma_identifier_builds(s, after_let);
                match identifier(s, after_let) {
                    Some((name, after_name)) => {
                        lemma_token_bounds(s, after_name, "="@);
                        match crate::grammar::symbol(s, after_name, "="@) {
                            Some(after_eq) => {
                                lemma_expression_builds(s, after_eq, (depth - 1) as nat);
                            },
                            None => {},
                        }
                    },
                    None => {},
                }
            },
            None => {},
        }
    }
}

/// A `VarSet` that the grammar reads can be built.
pub proof fn lemma_var_set_builds(s: Seq<char>, pos: int, depth: nat)
    requires
        0 <= pos <= s.len(),
    ensures
        var_set(s, pos, depth) matches Some((t, end)) ==> statement_body(t) && pos <= end
            <= s.len(),
    decreases depth, 0int,
{
    if depth > 0 {
        lemma_identifier_builds(s, pos);
        match identifier(s, pos) {
            Some((name, after_name)) => {
                lemma_token_bounds(s, after_name, "="@);
                match crate::grammar::symbol(s, after_name, "="@) {
                    Some(after_eq) => {
                        lemma_expression_builds(s, after_eq, (depth - 1) as nat);
                    },
                    None => {},
                }
            },
            None => {},
        }
    }
}

/// A `FuncReturn` that the grammar reads can be built.
pub proof fn lemma_func_return_builds(s: Seq<char>, pos: int, depth: nat)
    requires
        0 <= pos <= s.len(),
    ensures
        func_return(s, pos, depth) matches Some((t, end)) ==> statement_body(t) && pos <= end
            <= s.len(),
    decreases depth, 0int,
{
    if depth > 0 {
        lemma_token_bounds(s, pos, "return"@);
        match crate::grammar::keyword(s, pos, "return"@) {
            Some(after_word) => {
                lemma_expression_builds(s, after_word, (depth - 1) as nat);
            },
            None => {},
        }
    }
}

/// The statements that the grammar reads behind a list of statements make
/// a list of statements.
pub proof fn lemma_statements_list_builds(s: Seq<char>, pos: int, depth: nat, acc: Seq<Tree>)
    requires
        0 <= pos <= s.len(),
        statement_list(acc),
    ensures
        statement_list(statements(s, pos, depth, acc).0),
        pos <= statements(s, pos, depth, acc).1 <= s.len(),
    decreases depth, s.len() - pos,
{
    if depth > 0 {
        lemma_statement_builds(s, pos, (depth - 1) as nat);
        match statement(s, pos, (depth - 1) as nat) {
            Some((t, end)) => {
                if pos < end <= s.len() {
                    let next = acc.push(t);
                    assert forall|i: int| 0 <= i < next.len() implies ast_of_statement(
                        #[trigger] next[i],
                    ) is Some by {
                        if i < acc.len() {
                            assert(next[i] == acc[i]);
                        }
                    }
                    lemma_statements_list_builds(s, end, depth, next);
                }
            },
            None => {},
        }
    }
}

/// A `Block` that the grammar reads can be built.
pub proof fn lemma_block_builds(s: Seq<char>, pos: int, depth: nat)
    requires
        0 <= pos <= s.len(),
    ensures
        block(s, pos, depth) matches Some((t, end)) ==> t.rule == Rule::Block && ast_of_block(t) is Some
            && pos <= end <= s.len(),
    decreases depth, 0int,
{
    if depth > 0 {
        lemma_token_bounds(s, pos, "{"@);
        match crate::grammar::symbol(s, pos, "{"@) {
            Some(open) => {
                assert(statement_list(Seq::<Tree>::empty()));
                lemma_statements_list_builds(s, open, (depth - 1) as nat, Seq::empty());
                let (items, after_items) = statements(s, open, (depth - 1) as nat, Seq::empty());
                lemma_token_bounds(s, after_items, "}"@);
                lemma_statements_build(items, 0, Seq::empty());
            },
            None => {},
        }
    }
}

/// A `WhileLoop` or an `IfStatement` that the grammar reads can be built.
pub proof fn lemma_conditional_builds(rule: Rule, word: Seq<char>, s: Seq<char>, pos: int, depth: nat)
    requires
        0 <= pos <= s.len(),
        rule == Rule::WhileLoop || rule == Rule::IfStatement,
    ensures
        conditional(rule, word, s, pos, depth) matches Some((t, end)) ==> statement_body(t) && pos
            <= end <= s.len(),
    decreases depth, 0int,
{
    if depth > 0 {
        let d = (depth - 1) as nat;
        lemma_token_bounds(s, pos, word);
        match crate::grammar::keyword(s, pos, word) {
            Some(after_word) => {
                lemma_parenthesized_builds(s, after_word, d);
                match parenthesized(s, after_word, d) {
                    Some((condition, close)) => {
                        lemma_block_builds(s, close, d);
                    },
                    None => {},
                }
            },
            None => {},
        }
    }
}

/// A `ForParams` that the grammar reads can be built.
pub proof fn lemma_for_params_builds(s: Seq<char>, pos: int, depth: nat)
    requires
        0 <= pos <= s.len(),
    ensures
        for_params(s, pos, depth) matches Some((t, end)) ==> ast_of_for_params(t) is Some && pos
            <= end <= s.len(),
    decreases depth, 0int,
{
    if depth > 0 {
        let d = (depth - 1) as nat;
        lemma_statement_builds(s, pos, d);
        match statement(s, pos, d) {
            Some((first, after_first)) => {
                lemma_expression_builds(s, after_first, d);
                match expression(s, after_first, d) {
                    Some((condition, after_condition)) => {
                        lemma_token_bounds(s, after_condition, ";"@);
                        match crate::grammar::symbol(s, after_condition, ";"@) {
                            Some(after_semi) => {
                                lemma_statement_builds(s, after_semi, d);
                            },
                            None => {},
                        }
                    },
                    None => {},
                }
            },
            None => {},
        }
    }
}

/// A `for` loop whose header and whose block can be built can be built.
pub proof fn lemma_for_tree_builds(t: Tree)
    requires
        t.rule == Rule::ForLoop,
        t.inner.len() == 2,
        ast_of_for_params(t.inner[0]) is Some,
        ast_of_block(t.inner[1]) is Some,
    ensures
        statement_body(t),
{
    let whole = Tree { rule: Rule::Statement, text: Seq::empty(), inner: seq![t] };
    assert(whole.inner[0] == t);
}

/// A `ForLoop` that the grammar reads can be built.
pub proof fn lemma_for_loop_builds(s: Seq<char>, pos: int, depth: nat)
    requires
        0 <= pos <= s.len(),
    ensures
        for_loop(s, pos, depth) matches Some((t, end)) ==> statement_body(t) && pos <= end
            <= s.len(),
    decreases depth, 0int,
{
    match for_loop(s, pos, depth) {
        Some((t, end)) => {
            let d = (depth - 1) as nat;
            lemma_token_bounds(s, pos, "for"@);
            let after_word = crate::grammar::keyword(s, pos, "for"@)->0;
            lemma_token_bounds(s, after_word, "("@);
            let open = crate::grammar::symbol(s, after_word, "("@)->0;
            lemma_for_params_builds(s, open, d);
            let (params, after_params) = for_params(s, open, d)->0;
            lemma_token_bounds(s, after_params, ")"@);
            let close = crate::grammar::symbol(s, after_params, ")"@)->0;
            lemma_block_builds(s, close, d);
            let (body, _) = block(s, close, d)->0;
            assert(t.inner =~= seq![params, body]);
            lemma_for_tree_builds(t);
        },
        None => {},
    }
}

/// What a statement holds, where the grammar reads it, can be built.
pub proof fn lemma_any_statement_builds(s: Seq<char>, pos: int, depth: nat)
    requires
        0 <= pos <= s.len(),
    ensures
        any_statement(s, pos, depth) matches Some((t, end)) ==> statement_body(t) && pos <= end
            <= s.len(),
    decreases depth, 1int,
{
    lemma_var_decl_builds(s, pos, depth);
    lemma_func_return_builds(s, pos, depth);
    lemma_for_loop_builds(s, pos, depth);
    lemma_conditional_builds(Rule::WhileLoop, "while"@, s, pos, depth);
    lemma_conditional_builds(Rule::IfStatement, "if"@, s, pos, depth);
    lemma_func_call_builds(s, pos, depth);
    lemma_var_set_builds(s, pos, depth);
}

/// A `Statement` that the grammar reads can be built.
pub proof fn lemma_statement_builds(s: Seq<char>, pos: int, depth: nat)
    requires
        0 <= pos <= s.len(),
    ensures
        statement(s, pos, depth) matches Some((t, end)) ==> ast_of_statement(t) is Some && pos <= end
            <= s.len(),
    decreases depth, 0int,
{
    if depth > 0 {
        lemma_any_statement_builds(s, pos, (depth - 1) as nat);
        match any_statement(s, pos, (depth - 1) as nat) {
            Some((body, end)) => {
                lemma_token_bounds(s, end, ";"@);
                match statement(s, pos, depth) {
                    Some((t, _)) => {
                        assert(t.inner[0] == body);
                    },
                    None => {},
                }
            },
            None => {},
        }
    }
}

/// A `DefArgList` is read within the text.
pub proof fn lemma_def_arg_list_bounds(s: Seq<char>, pos: int)
    requires
        0 <= pos <= s.len(),
    ensures
        pos <= def_arg_list(s, pos).1 <= s.len(),
{
    lemma_skip_space(s, pos);
    lemma_identifier_builds(s, pos);
    match identifier(s, pos) {
        Some((first, after_first)) => {
            lemma_more_names_bounds(s, after_first, seq![first]);
        },
        None => {},
    }
}

/// The names of a `DefArgList` are read within the text.
pub proof fn lemma_more_names_bounds(s: Seq<char>, pos: int, acc: Seq<Tree>)
    requires
        0 <= pos <= s.len(),
    ensures
        pos <= crate::grammar::more_names(s, pos, acc).1 <= s.len(),
    decreases s.len() - pos,
{
    lemma_token_bounds(s, pos, ","@);
    match crate::grammar::symbol(s, pos, ","@) {
        Some(after_comma) => {
            lemma_identifier_builds(s, after_comma);
            match identifier(s, after_comma) {
                Some((t, end)) => {
                    if pos < end <= s.len() {
                        lemma_more_names_bounds(s, end, acc.push(t));
                    }
                },
                None => {},
            }
        },
        None => {},
    }
}

/// A `FuncDef` that the grammar reads can be built.
pub proof fn lemma_func_def_builds(s: Seq<char>, pos: int, depth: nat)
    requires
        0 <= pos <= s.len(),
    ensures
        func_def(s, pos, depth) matches Some((t, end)) ==> t.rule == Rule::FuncDef
            && ast_of_func_def(t) is Some && pos <= end <= s.len(),
{
    lemma_token_bounds(s, pos, "fn"@);
    match crate::grammar::keyword(s, pos, "fn"@) {
        Some(after_word) => {
            lemma_identifier_builds(s, after_word);
            match identifier(s, after_word) {
                Some((name, after_name)) => {
                    lemma_token_bounds(s, after_name, "("@);
                    match crate::grammar::symbol(s, after_name, "("@) {
                        Some(open) => {
                            lemma_def_arg_list_bounds(s, open);
                            let (params, after_params) = def_arg_list(s, open);
                            lemma_token_bounds(s, after_params, ")"@);
                            match crate::grammar::symbol(s, after_params, ")"@) {
                                Some(close) => {
                                    lemma_block_builds(s, close, depth);
                                },
                                None => {},
                            }
                        },
                        None => {},
                    }
                },
                None => {},
            }
        },
        None => {},
    }
}

/// The function definitions that the grammar reads behind a list of
/// function definitions make a list of function definitions.
pub proof fn lemma_func_defs_list_builds(s: Seq<char>, pos: int, depth: nat, acc: Seq<Tree>)
    requires
        0 <= pos <= s.len(),
        func_def_list(acc),
    ensures
        func_def_list(func_defs(s, pos, depth, acc).0),
    decreases s.len() - pos,
{
    lemma_func_def_builds(s, pos, depth);
    match func_def(s, pos, depth) {
        Some((t, end)) => {
            if pos < end <= s.len() {
                let next = acc.push(t);
                assert forall|i: int| 0 <= i < next.len() implies (#[trigger] next[i]).rule
                    == Rule::FuncDef && ast_of_func_def(next[i]) is Some by {
                    if i < acc.len() {
                        assert(next[i] == acc[i]);
                    }
                }
                lemma_func_defs_list_builds(s, end, depth, next);
            }
        },
        None => {},
    }
}

/// Every tree that the grammar reads can be built: every text that follows
/// the grammar has a syntax tree.
pub proof fn lemma_program_builds(s: Seq<char>, depth: nat)
    ensures
        program(s, depth) matches Some(t) ==> ast_of_root(t) is Some,
{
    match program(s, depth) {
        Some(t) => {
            assert(func_def_list(Seq::<Tree>::empty()));
            lemma_func_defs_list_builds(s, 0, depth, Seq::empty());
            let defs = func_defs(s, 0, depth, Seq::empty()).0;
            let len = s.len() as int;
            let items = defs.push(tree(Rule::EOI, s, len, len, Seq::empty()));
            assert(items.drop_last() =~= defs);
            assert(t.inner == items);
            lemma_func_defs_build(items, 0, Seq::empty());
        },
        None => {},
    }
}

/// Binary operators associate to the left: `a op1 b op2 c` is built as
/// `(a op1 b) op2 c`.
pub proof fn lemma_operators_associate_left(t: Tree)
    requires
        t.rule == Rule::BinaryExpression,
        t.inner.len() == 5,
        ast_of_term(t.inner[0]) is Some,
        binary_operator_of(t.inner[1].text) is Some,
        ast_of_term(t.inner[2]) is Some,
        binary_operator_of(t.inner[3].text) is Some,
        ast_of_term(t.inner[4]) is Some,
    ensures
        ast_of_expression(t) == Some(
            Ast::BinaryExpression {
                lhs: Box::new(
                    Ast::BinaryExpression {
                        lhs: Box::new(ast_of_term(t.inner[0])->0),
                        op: binary_operator_of(t.inner[1].text)->0,
                        rhs: Box::new(ast_of_term(t.inner[2])->0),
                    },
                ),
                op: binary_operator_of(t.inner[3].text)->0,
                rhs: Box::new(ast_of_term(t.inner[4])->0),
            },
        ),
{
    let a = ast_of_term(t.inner[0])->0;
    let inner = Ast::BinaryExpression {
        lhs: Box::new(a),
        op: binary_operator_of(t.inner[1].text)->0,
        rhs: Box::new(ast_of_term(t.inner[2])->0),
    };
    let outer = Ast::BinaryExpression {
        lhs: Box::new(inner),
        op: binary_operator_of(t.inner[3].text)->0,
        rhs: Box::new(ast_of_term(t.inner[4])->0),
    };
    assert(fold_operands(t.inner, 3, outer) == Some(outer));
    lemma_fold_step(t.inner, 2, inner);
    lemma_fold_step(t.inner, 1, a);
}

/// Each further operator of a binary expression takes all that stands
/// before it as its left operand.
pub proof fn lemma_fold_step(items: Seq<Tree>, k: int, lhs: Ast)
    requires
        k >= 1,
        2 * k < items.len(),
        ast_of_term(items[2 * k]) is Some,
        binary_operator_of(items[2 * k - 1].text) is Some,
    ensures
        fold_operands(items, k, lhs) == fold_operands(
            items,
            k + 1,
            Ast::BinaryExpression {
                lhs: Box::new(lhs),
                op: binary_operator_of(items[2 * k - 1].text)->0,
                rhs: Box::new(ast_of_term(items[2 * k])->0),
            },
        ),
{
}

} // verus!
