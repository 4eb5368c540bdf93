//! The bound on the nesting of rules is no bound where it is large enough
//! for the text: a rule that has eight levels for every character that is
//! left, and a few more, reads the text as it does under every larger bound.

use crate::builds::{
    lemma_expression_builds, lemma_for_params_builds, lemma_identifier_builds,
    lemma_operator_bounds, lemma_parenthesized_builds, lemma_statement_builds, lemma_term_builds,
    lemma_token_bounds,
};
use crate::grammar::{
    any_statement, arg_list, binary_operator, blame_block, blame_program, blame_statement, block,
    conditional, def_arg_list, enough, expression, for_loop, for_params, func_call, func_def,
    func_defs, func_return, identifier, keyword, more_arguments, operands, parenthesized, program,
    statement, statements, symbol, term, unary_expression, unary_operator, var_decl, var_set,
    Rule, Tree,
};
use crate::text::lemma_skip_space;
use vstd::prelude::*;

verus! {

/// The levels that a rule of rank `rank` needs at `pos`: eight for every
/// character from `pos` on, and `rank` more.
pub open spec fn room(s: Seq<char>, pos: int, rank: int) -> int {
    8 * (s.len() - pos) + rank
}

/// A symbol that is read ends behind where it was sought.
pub proof fn lemma_symbol_advances(s: Seq<char>, pos: int, lit: Seq<char>)
    requires
        0 <= pos <= s.len(),
        lit.len() >= 1,
    ensures
        symbol(s, pos, lit) matches Some(end) ==> pos < end <= s.len(),
{
    lemma_skip_space(s, pos);
}

/// An `Expression` ends within the text, no further back than it started.
pub proof fn lemma_expression_ends(s: Seq<char>, pos: int, depth: nat)
    requires
        0 <= pos <= s.len(),
    ensures
        expression(s, pos, depth) matches Some((_, end)) ==> pos <= end <= s.len(),
{
    lemma_expression_builds(s, pos, depth);
}

/// A `Term` ends within the text, no further back than it started.
pub proof fn lemma_term_ends(s: Seq<char>, pos: int, depth: nat)
    requires
        0 <= pos <= s.len(),
    ensures
        term(s, pos, depth) matches Some((_, end)) ==> pos <= end <= s.len(),
{
    lemma_term_builds(s, pos, depth);
}

/// `"(" Expression ")"` ends within the text, no further back than it
/// started.
pub proof fn lemma_parenthesized_ends(s: Seq<char>, pos: int, depth: nat)
    requires
        0 <= pos <= s.len(),
    ensures
        parenthesized(s, pos, depth) matches Some((_, end)) ==> pos <= end <= s.len(),
{
    lemma_parenthesized_builds(s, pos, depth);
}

/// A `Statement` ends within the text, no further back than it started.
pub proof fn lemma_statement_ends(s: Seq<char>, pos: int, depth: nat)
    requires
        0 <= pos <= s.len(),
    ensures
        statement(s, pos, depth) matches Some((_, end)) ==> pos <= end <= s.len(),
{
    lemma_statement_builds(s, pos, depth);
}

/// `ForParams` ends within the text, no further back than it started.
pub proof fn lemma_for_params_ends(s: Seq<char>, pos: int, depth: nat)
    requires
        0 <= pos <= s.len(),
    ensures
        for_params(s, pos, depth) matches Some((_, end)) ==> pos <= end <= s.len(),
{
    lemma_for_params_builds(s, pos, depth);
}

/// An `Identifier` ends within the text, no further back than it started.
pub proof fn lemma_identifier_ends(s: Seq<char>, pos: int)
    requires
        0 <= pos <= s.len(),
    ensures
        identifier(s, pos) matches Some((_, end)) ==> pos <= end <= s.len(),
{
    lemma_identifier_builds(s, pos);
}

/// `"(" Expression ")"` with room enough is read the same with more.
#[verifier::spinoff_prover]
pub proof fn lemma_parenthesized_settles(s: Seq<char>, pos: int, depth: nat)
    requires
        0 <= pos <= s.len(),
        depth >= room(s, pos, 1),
    ensures
        parenthesized(s, pos, depth + 1) == parenthesized(s, pos, depth),
    decreases depth, 0int,
{
    reveal_strlit("(");
    lemma_symbol_advances(s, pos, "("@);
    match symbol(s, pos, "("@) {
        Some(open) => {
            lemma_expression_settles(s, open, (depth - 1) as nat);
        },
        None => {},
    }
}

/// A `FuncCall` with room enough is read the same with more.
#[verifier::spinoff_prover]
pub proof fn lemma_func_call_settles(s: Seq<char>, pos: int, depth: nat)
    requires
        0 <= pos <= s.len(),
        depth >= room(s, pos, 1),
    ensures
        func_call(s, pos, depth + 1) == func_call(s, pos, depth),
    decreases depth, 0int,
{
    reveal_strlit("(");
    lemma_identifier_ends(s, pos);
    match identifier(s, pos) {
        Some((name, after_name)) => {
            lemma_symbol_advances(s, after_name, "("@);
            match symbol(s, after_name, "("@) {
                Some(open) => {
                    lemma_arg_list_settles(s, open, (depth - 1) as nat);
                },
                None => {},
            }
        },
        None => {},
    }
}

/// A `Term` with room enough is read the same with more.
#[verifier::spinoff_prover]
pub proof fn lemma_term_settles(s: Seq<char>, pos: int, depth: nat)
    requires
        0 <= pos <= s.len(),
        depth >= room(s, pos, 2),
    ensures
        term(s, pos, depth + 1) == term(s, pos, depth),
    decreases depth, 0int,
{
    lemma_parenthesized_settles(s, pos, (depth - 1) as nat);
    lemma_func_call_settles(s, pos, (depth - 1) as nat);
}

/// A `UnaryExpression` with room enough is read the same with more.
#[verifier::spinoff_prover]
pub proof fn lemma_unary_expression_settles(s: Seq<char>, pos: int, depth: nat)
    requires
        0 <= pos <= s.len(),
        depth >= room(s, pos, 3),
    ensures
        unary_expression(s, pos, depth + 1) == unary_expression(s, pos, depth),
    decreases depth, 0int,
{
    lemma_operator_bounds(s, pos);
    match unary_operator(s, pos) {
        Some((op, after_op)) => {
            lemma_term_settles(s, after_op, (depth - 1) as nat);
        },
        None => {},
    }
}

/// `(BinaryOperator Term)*` with room enough is read the same with more.
#[verifier::spinoff_prover]
pub proof fn lemma_operands_settle(s: Seq<char>, pos: int, depth: nat, acc: Seq<Tree>)
    requires
        0 <= pos <= s.len(),
        depth >= room(s, pos, 3),
    ensures
        operands(s, pos, depth + 1, acc) == operands(s, pos, depth, acc),
    decreases depth, s.len() - pos,
{
    lemma_operator_bounds(s, pos);
    match binary_operator(s, pos) {
        Some((op, after_op)) => {
            lemma_term_settles(s, after_op, (depth - 1) as nat);
            match term(s, after_op, (depth - 1) as nat) {
                Some((t, end)) => {
                    if pos < end <= s.len() {
                        lemma_operands_settle(s, end, depth, acc.push(op).push(t));
                    }
                },
                None => {},
            }
        },
        None => {},
    }
}

/// An `Expression` with room enough is read the same with more.
#[verifier::spinoff_prover]
pub proof fn lemma_expression_settles(s: Seq<char>, pos: int, depth: nat)
    requires
        0 <= pos <= s.len(),
        depth >= room(s, pos, 4),
    ensures
        expression(s, pos, depth + 1) == expression(s, pos, depth),
    decreases depth, 0int,
{
    let d = (depth - 1) as nat;
    lemma_unary_expression_settles(s, pos, d);
    lemma_term_settles(s, pos, d);
    lemma_term_ends(s, pos, d);
    match term(s, pos, d) {
        Some((first, after_first)) => {
            lemma_operands_settle(s, after_first, d, seq![first]);
        },
        None => {},
    }
}

/// `("," Expression)*` with room enough is read the same with more.
#[verifier::spinoff_prover]
pub proof fn lemma_more_arguments_settle(s: Seq<char>, pos: int, depth: nat, acc: Seq<Tree>)
    requires
        0 <= pos <= s.len(),
        depth >= room(s, pos, 5),
    ensures
        more_arguments(s, pos, depth + 1, acc) == more_arguments(s, pos, depth, acc),
    decreases depth, s.len() - pos,
{
    lemma_token_bounds(s, pos, ","@);
    match symbol(s, pos, ","@) {
        Some(after_comma) => {
            lemma_expression_settles(s, after_comma, (depth - 1) as nat);
            match expression(s, after_comma, (depth - 1) as nat) {
                Some((t, end)) => {
                    if pos < end <= s.len() {
                        lemma_more_arguments_settle(s, end, depth, acc.push(t));
                    }
                },
                None => {},
            }
        },
        None => {},
    }
}

/// An `ArgList` with room enough is read the same with more.
#[verifier::spinoff_prover]
pub proof fn lemma_arg_list_settles(s: Seq<char>, pos: int, depth: nat)
    requires
        0 <= pos <= s.len(),
        depth >= room(s, pos, 6),
    ensures
        arg_list(s, pos, depth + 1) == arg_list(s, pos, depth),
    decreases depth, 0int,
{
    let d = (depth - 1) as nat;
    lemma_expression_settles(s, pos, d);
    lemma_expression_ends(s, pos, d);
    match expression(s, pos, d) {
        Some((first, after_first)) => {
            lemma_more_arguments_settle(s, after_first, d, seq![first]);
        },
        None => {},
    }
}

/// A `VarDecl` with room enough is read the same with more.
#[verifier::spinoff_prover]
pub proof fn lemma_var_decl_settles(s: Seq<char>, pos: int, depth: nat)
    requires
        0 <= pos <= s.len(),
        depth >= room(s, pos, 5),
    ensures
        var_decl(s, pos, depth + 1) == var_decl(s, pos, depth),
    decreases depth, 0int,
{
    lemma_token_bounds(s, pos, "let"@);
    match keyword(s, pos, "let"@) {
        Some(after_let) => {
            lemma_identifier_ends(s, after_let);
            match identifier(s, after_let) {
                Some((name, after_name)) => {
                    lemma_token_bounds(s, after_name, "="@);
                    match symbol(s, after_name, "="@) {
                        Some(after_eq) => {
                            lemma_expression_settles(s, after_eq, (depth - 1) as nat);
                        },
                        None => {},
                    }
                },
                None => {},
            }
        },
        None => {},
    }
}

/// A `VarSet` with room enough is read the same with more.
#[verifier::spinoff_prover]
pub proof fn lemma_var_set_settles(s: Seq<char>, pos: int, depth: nat)
    requires
        0 <= pos <= s.len(),
        depth >= room(s, pos, 5),
    ensures
        var_set(s, pos, depth + 1) == var_set(s, pos, depth),
    decreases depth, 0int,
{
    lemma_identifier_ends(s, pos);
    match identifier(s, pos) {
        Some((name, after_name)) => {
            lemma_token_bounds(s, after_name, "="@);
            match symbol(s, after_name, "="@) {
                Some(after_eq) => {
                    lemma_expression_settles(s, after_eq, (depth - 1) as nat);
                },
                None => {},
            }
        },
        None => {},
    }
}

/// A `FuncReturn` with room enough is read the same with more.
#[verifier::spinoff_prover]
pub proof fn lemma_func_return_settles(s: Seq<char>, pos: int, depth: nat)
    requires
        0 <= pos <= s.len(),
        depth >= room(s, pos, 5),
    ensures
        func_return(s, pos, depth + 1) == func_return(s, pos, depth),
    decreases depth, 0int,
{
    lemma_token_bounds(s, pos, "return"@);
    match keyword(s, pos, "return"@) {
        Some(after_word) => {
            lemma_expression_settles(s, after_word, (depth - 1) as nat);
        },
        None => {},
    }
}

/// `Statement*` with room enough is read the same with more.
#[verifier::spinoff_prover]
pub proof fn lemma_statements_settle(s: Seq<char>, pos: int, depth: nat, acc: Seq<Tree>)
    requires
        0 <= pos <= s.len(),
        depth >= room(s, pos, 7),
    ensures
        statements(s, pos, depth + 1, acc) == statements(s, pos, depth, acc),
    decreases depth, s.len() - pos,
{
    lemma_statement_settles(s, pos, (depth - 1) as nat);
    match statement(s, pos, (depth - 1) as nat) {
        Some((t, end)) => {
            if pos < end <= s.len() {
                lemma_statements_settle(s, end, depth, acc.push(t));
            }
        },
        None => {},
    }
}

/// A `Block` with room enough is read the same with more.
#[verifier::spinoff_prover]
pub proof fn lemma_block_settles(s: Seq<char>, pos: int, depth: nat)
    requires
        0 <= pos <= s.len(),
        depth >= room(s, pos, 1),
    ensures
        block(s, pos, depth + 1) == block(s, pos, depth),
    decreases depth, 0int,
{
    reveal_strlit("{");
    lemma_symbol_advances(s, pos, "{"@);
    match symbol(s, pos, "{"@) {
        Some(open) => {
            lemma_statements_settle(s, open, (depth - 1) as nat, Seq::empty());
        },
        None => {},
    }
}

/// A `WhileLoop` and an `IfStatement` with room enough are read the same
/// with more.
#[verifier::spinoff_prover]
pub proof fn lemma_conditional_settles(
    rule: Rule,
    word: Seq<char>,
    s: Seq<char>,
    pos: int,
    depth: nat,
)
    requires
        0 <= pos <= s.len(),
        depth >= room(s, pos, 2),
    ensures
        conditional(rule, word, s, pos, depth + 1) == conditional(rule, word, s, pos, depth),
    decreases depth, 0int,
{
    let d = (depth - 1) as nat;
    lemma_token_bounds(s, pos, word);
    match keyword(s, pos, word) {
        Some(after_word) => {
            lemma_parenthesized_settles(s, after_word, d);
            lemma_parenthesized_ends(s, after_word, d);
            match parenthesized(s, after_word, d) {
                Some((condition, close)) => {
                    lemma_block_settles(s, close, d);
                },
                None => {},
            }
        },
        None => {},
    }
}

/// `ForParams` behind its first statement: `Expression ";" Statement`,
/// and the tree of the whole.
pub open spec fn for_params_rest(
    s: Seq<char>,
    pos: int,
    first: Tree,
    after_first: int,
    depth: nat,
) -> crate::grammar::Parsed {
    match expression(s, after_first, depth) {
        Some((condition, after_condition)) => match symbol(s, after_condition, ";"@) {
            Some(after_semi) => match statement(s, after_semi, depth) {
                Some((last, end)) => Some(
                    (
                        crate::grammar::tree(
                            Rule::ForParams,
                            s,
                            crate::text::skip_space(s, pos),
                            end,
                            seq![first, condition, last],
                        ),
                        end,
                    ),
                ),
                None => None,
            },
            None => None,
        },
        None => None,
    }
}

/// `ForParams` is its first statement and the rest.
pub proof fn lemma_for_params_unfolds(s: Seq<char>, pos: int, depth: nat)
    requires
        depth >= 1,
    ensures
        for_params(s, pos, depth) == match statement(s, pos, (depth - 1) as nat) {
            Some((first, after_first)) => for_params_rest(
                s,
                pos,
                first,
                after_first,
                (depth - 1) as nat,
            ),
            None => None,
        },
{
}

/// The rest of `ForParams` with room enough is read the same with more.
#[verifier::spinoff_prover]
pub proof fn lemma_for_params_rest_settles(
    s: Seq<char>,
    pos: int,
    first: Tree,
    after_first: int,
    depth: nat,
)
    requires
        0 <= after_first <= s.len(),
        depth >= room(s, after_first, 6),
    ensures
        for_params_rest(s, pos, first, after_first, depth + 1) == for_params_rest(
            s,
            pos,
            first,
            after_first,
            depth,
        ),
    decreases depth, 1int,
{
    lemma_expression_settles(s, after_first, depth);
    lemma_expression_ends(s, after_first, depth);
    match expression(s, after_first, depth) {
        Some((condition, after_condition)) => {
            lemma_token_bounds(s, after_condition, ";"@);
            match symbol(s, after_condition, ";"@) {
                Some(after_semi) => {
                    lemma_statement_settles(s, after_semi, depth);
                },
                None => {},
            }
        },
        None => {},
    }
}

/// `ForParams` with room enough is read the same with more.
#[verifier::spinoff_prover]
pub proof fn lemma_for_params_settles(s: Seq<char>, pos: int, depth: nat)
    requires
        0 <= pos <= s.len(),
        depth >= room(s, pos, 7),
    ensures
        for_params(s, pos, depth + 1) == for_params(s, pos, depth),
    decreases depth, 2int,
{
    let d = (depth - 1) as nat;
    lemma_for_params_unfolds(s, pos, depth + 1);
    lemma_for_params_unfolds(s, pos, depth);
    lemma_statement_settles(s, pos, d);
    lemma_statement_ends(s, pos, d);
    match statement(s, pos, d) {
        Some((first, after_first)) => {
            lemma_for_params_rest_settles(s, pos, first, after_first, d);
        },
        None => {},
    }
}

/// A `ForLoop` with room enough is read the same with more.
#[verifier::spinoff_prover]
pub proof fn lemma_for_loop_settles(s: Seq<char>, pos: int, depth: nat)
    requires
        0 <= pos <= s.len(),
        depth >= room(s, pos, 2),
    ensures
        for_loop(s, pos, depth + 1) == for_loop(s, pos, depth),
    decreases depth, 0int,
{
    let d = (depth - 1) as nat;
    reveal_strlit("(");
    lemma_token_bounds(s, pos, "for"@);
    match keyword(s, pos, "for"@) {
        Some(after_word) => {
            lemma_symbol_advances(s, after_word, "("@);
            match symbol(s, after_word, "("@) {
                Some(open) => {
                    lemma_for_params_settles(s, open, d);
                    lemma_for_params_ends(s, open, d);
                    match for_params(s, open, d) {
                        Some((params, after_params)) => {
                            lemma_token_bounds(s, after_params, ")"@);
                            match symbol(s, after_params, ")"@) {
                                Some(close) => {
                                    lemma_block_settles(s, close, d);
                                },
                                None => {},
                            }
                        },
                        None => {},
                    }
                },
                None => {},
            }
        },
        None => {},
    }
}

/// What a statement holds, with room enough, is read the same with more.
#[verifier::spinoff_prover]
pub proof fn lemma_any_statement_settles(s: Seq<char>, pos: int, depth: nat)
    requires
        0 <= pos <= s.len(),
        depth >= room(s, pos, 5),
    ensures
        any_statement(s, pos, depth + 1) == any_statement(s, pos, depth),
    decreases depth, 1int,
{
    lemma_var_decl_settles(s, pos, depth);
    lemma_func_return_settles(s, pos, depth);
    lemma_for_loop_settles(s, pos, depth);
    lemma_conditional_settles(Rule::WhileLoop, "while"@, s, pos, depth);
    lemma_conditional_settles(Rule::IfStatement, "if"@, s, pos, depth);
    lemma_func_call_settles(s, pos, depth);
    lemma_var_set_settles(s, pos, depth);
}

/// A `Statement` with room enough is read the same with more.
#[verifier::spinoff_prover]
pub proof fn lemma_statement_settles(s: Seq<char>, pos: int, depth: nat)
    requires
        0 <= pos <= s.len(),
        depth >= room(s, pos, 6),
    ensures
        statement(s, pos, depth + 1) == statement(s, pos, depth),
    decreases depth, 0int,
{
    lemma_any_statement_settles(s, pos, (depth - 1) as nat);
}

/// A `FuncDef` with room enough is read the same with more.
#[verifier::spinoff_prover]
pub proof fn lemma_func_def_settles(s: Seq<char>, pos: int, depth: nat)
    requires
        0 <= pos <= s.len(),
        depth >= room(s, pos, 1),
    ensures
        func_def(s, pos, depth + 1) == func_def(s, pos, depth),
{
    lemma_token_bounds(s, pos, "fn"@);
    match keyword(s, pos, "fn"@) {
        Some(after_word) => {
            lemma_identifier_ends(s, after_word);
            match identifier(s, after_word) {
                Some((name, after_name)) => {
                    lemma_token_bounds(s, after_name, "("@);
                    match symbol(s, after_name, "("@) {
                        Some(open) => {
                            crate::builds::lemma_def_arg_list_bounds(s, open);
                            let (params, after_params) = def_arg_list(s, open);
                            lemma_token_bounds(s, after_params, ")"@);
                            match symbol(s, after_params, ")"@) {
                                Some(close) => {
                                    lemma_block_settles(s, close, depth);
                                },
                                None => {},
                            }
                        },
                        None => {},
                    }
                },
                None => {},
            }
        },
        None => {},
    }
}

/// `FuncDef*` with room enough is read the same with more.
#[verifier::spinoff_prover]
pub proof fn lemma_func_defs_settle(s: Seq<char>, pos: int, depth: nat, acc: Seq<Tree>)
    requires
        0 <= pos <= s.len(),
        depth >= room(s, pos, 1),
    ensures
        func_defs(s, pos, depth + 1, acc) == func_defs(s, pos, depth, acc),
    decreases s.len() - pos,
{
    lemma_func_def_settles(s, pos, depth);
    match func_def(s, pos, depth) {
        Some((t, end)) => {
            if pos < end <= s.len() {
                lemma_func_defs_settle(s, end, depth, acc.push(t));
            }
        },
        None => {},
    }
}

/// The bound is no bound: under every bound that is large enough for the
/// text, the grammar reads the text in the same way.
pub proof fn lemma_bound_is_no_bound(s: Seq<char>, depth: nat)
    requires
        depth >= enough(s),
    ensures
        program(s, depth) == program(s, enough(s)),
    decreases depth - enough(s),
{
    if depth > enough(s) {
        lemma_bound_is_no_bound(s, (depth - 1) as nat);
        lemma_func_defs_settle(s, 0, (depth - 1) as nat, Seq::empty());
    }
}

/// `Statement*` ends within the text, no further back than it started.
pub proof fn lemma_statements_end(s: Seq<char>, pos: int, depth: nat, acc: Seq<Tree>)
    requires
        0 <= pos <= s.len(),
    ensures
        pos <= statements(s, pos, depth, acc).1 <= s.len(),
    decreases depth, s.len() - pos,
{
    if depth > 0 {
        match statement(s, pos, (depth - 1) as nat) {
            Some((t, end)) => {
                if pos < end <= s.len() {
                    lemma_statements_end(s, end, depth, acc.push(t));
                }
            },
            None => {},
        }
    }
}

/// Where a block goes wrong is found the same with room enough and with
/// more.
#[verifier::spinoff_prover]
pub proof fn lemma_blame_block_settles(s: Seq<char>, pos: int, depth: nat)
    requires
        0 <= pos <= s.len(),
        depth >= room(s, pos, 2),
    ensures
        blame_block(s, pos, depth + 1) == blame_block(s, pos, depth),
    decreases depth, 0int,
{
    reveal_strlit("{");
    lemma_symbol_advances(s, pos, "{"@);
    match symbol(s, pos, "{"@) {
        Some(open) => {
            lemma_statements_settle(s, open, (depth - 1) as nat, Seq::empty());
            lemma_statements_end(s, open, (depth - 1) as nat, Seq::empty());
            let stop = statements(s, open, (depth - 1) as nat, Seq::empty()).1;
            lemma_blame_statement_settles(s, stop, (depth - 2) as nat);
        },
        None => {},
    }
}

/// Where a statement goes wrong is found the same with room enough and
/// with more.
#[verifier::rlimit(30)]
#[verifier::spinoff_prover]
pub proof fn lemma_blame_statement_settles(s: Seq<char>, pos: int, depth: nat)
    requires
        0 <= pos <= s.len(),
        depth >= room(s, pos, 8),
    ensures
        blame_statement(s, pos, depth + 1) == blame_statement(s, pos, depth),
    decreases depth, 0int,
{
    let d = (depth - 1) as nat;
    let inner = (depth - 2) as nat;
    reveal_strlit("(");
    lemma_any_statement_settles(s, pos, d);
    lemma_for_loop_settles(s, pos, d);
    lemma_conditional_settles(Rule::WhileLoop, "while"@, s, pos, d);
    lemma_conditional_settles(Rule::IfStatement, "if"@, s, pos, d);
    lemma_token_bounds(s, pos, "for"@);
    lemma_token_bounds(s, pos, "while"@);
    lemma_token_bounds(s, pos, "if"@);
    match keyword(s, pos, "for"@) {
        Some(after_for) => {
            lemma_symbol_advances(s, after_for, "("@);
            match symbol(s, after_for, "("@) {
                Some(open) => {
                    lemma_for_params_settles(s, open, inner);
                    lemma_for_params_ends(s, open, inner);
                    match for_params(s, open, inner) {
                        Some((_, after_params)) => {
                            lemma_token_bounds(s, after_params, ")"@);
                            match symbol(s, after_params, ")"@) {
                                Some(close) => {
                                    lemma_blame_block_settles(s, close, inner);
                                },
                                None => {},
                            }
                        },
                        None => {},
                    }
                },
                None => {},
            }
        },
        None => {
            match crate::grammar::or_else_at(keyword(s, pos, "while"@), keyword(s, pos, "if"@)) {
                Some(after_word) => {
                    lemma_parenthesized_settles(s, after_word, inner);
                    lemma_parenthesized_ends(s, after_word, inner);
                    match parenthesized(s, after_word, inner) {
                        Some((_, close)) => {
                            lemma_blame_block_settles(s, close, inner);
                        },
                        None => {},
                    }
                },
                None => {},
            }
        },
    }
}

/// Where a text goes wrong is found the same under every bound that is
/// large enough for the text.
pub proof fn lemma_blame_is_no_matter_of_bound(s: Seq<char>, depth: nat)
    requires
        depth >= enough(s),
    ensures
        blame_program(s, depth) == blame_program(s, enough(s)),
    decreases depth - enough(s),
{
    if depth > enough(s) {
        let d = (depth - 1) as nat;
        lemma_blame_is_no_matter_of_bound(s, d);
        lemma_func_defs_settle(s, 0, d, Seq::empty());
        lemma_func_defs_end(s, 0, d, Seq::empty());
        let stop = func_defs(s, 0, d, Seq::empty()).1;
        lemma_token_bounds(s, stop, "fn"@);
        match keyword(s, stop, "fn"@) {
            Some(after_word) => {
                lemma_identifier_ends(s, after_word);
                match identifier(s, after_word) {
                    Some((_, after_name)) => {
                        lemma_token_bounds(s, after_name, "("@);
                        match symbol(s, after_name, "("@) {
                            Some(open) => {
                                crate::builds::lemma_def_arg_list_bounds(s, open);
                                let after_params = def_arg_list(s, open).1;
                                lemma_token_bounds(s, after_params, ")"@);
                                match symbol(s, after_params, ")"@) {
                                    Some(close) => {
                                        lemma_blame_block_settles(s, close, d);
                                    },
                                    None => {},
                                }
                            },
                            None => {},
                        }
                    },
                    None => {},
                }
            },
            None => {},
        }
    }
}

/// `FuncDef*` ends within the text, no further back than it started.
pub proof fn lemma_func_defs_end(s: Seq<char>, pos: int, depth: nat, acc: Seq<Tree>)
    requires
        0 <= pos <= s.len(),
    ensures
        pos <= func_defs(s, pos, depth, acc).1 <= s.len(),
    decreases s.len() - pos,
{
    match func_def(s, pos, depth) {
        Some((t, end)) => {
            if pos < end <= s.len() {
                lemma_func_defs_end(s, end, depth, acc.push(t));
            }
        },
        None => {},
    }
}

} // verus!
