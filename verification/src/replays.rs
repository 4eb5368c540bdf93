//! What holds of the console across evaluations, and across two runs of one
//! program of which the second was given more lines or a larger bound: the
//! second writes all that the first wrote, and goes on from there. So the
//! steps of a session, each of which runs the program from its start, show
//! piece by piece what one run writes.

use crate::ast::Ast;
use crate::builtins::{
    call_builtin, first_unprintable, input_effect, print_effect, written, BuiltinFunction,
    ConsoleView,
};
use crate::environment::{bind_all, lookup, push_frame};
use crate::interpreter::global_frame;
use crate::laws::{out_of_fuel, out_of_fuel_args};
use crate::semantics::{
    arguments, bound_count, eval, eval_args, eval_block, eval_for, eval_program, eval_while, run,
    ArgsOutcome, Outcome, State,
};
use crate::session::{
    next_limit, replay, step, unseen, written_in_step, ActionView, SessionView,
};
use crate::value::Val;
use vstd::prelude::*;

verus! {

/// Whether `after` is a console that `before` can become: what was written
/// is still there, in front; the lines that wait are the last of those that
/// waited; and a console that was starved stays so.
pub open spec fn continues(before: ConsoleView, after: ConsoleView) -> bool {
    &&& before.output.is_prefix_of(after.output)
    &&& after.pending.len() <= before.pending.len()
    &&& after.pending == before.pending.subrange(
        before.pending.len() - after.pending.len(),
        before.pending.len() as int,
    )
    &&& before.starved ==> after.starved
}

/// A console can become itself, and what it can become in two steps it can
/// become.
pub proof fn lemma_continues(a: ConsoleView, b: ConsoleView, c: ConsoleView)
    ensures
        continues(a, a),
        continues(a, b) && continues(b, c) ==> continues(a, c),
{
    assert(a.pending.subrange(0, a.pending.len() as int) =~= a.pending);
    if continues(a, b) && continues(b, c) {
        assert(c.pending =~= a.pending.subrange(
            a.pending.len() - c.pending.len(),
            a.pending.len() as int,
        ));
    }
}

/// No built-in function takes back what was written, reads a line out of
/// turn, or feeds a console that was starved.
pub proof fn lemma_builtin_continues(f: BuiltinFunction, console: ConsoleView, args: Seq<Val>)
    ensures
        continues(console, call_builtin(f, console, args).0),
{
    lemma_continues(console, console, console);
    let wrote = written(console, args);
    assert(continues(console, wrote));
    match f {
        BuiltinFunction::Print => {
            let after = print_effect(console, args).0;
            assert(continues(wrote, after)) by {
                assert(after.pending.subrange(0, after.pending.len() as int) =~= after.pending);
            }
            lemma_continues(console, wrote, after);
        },
        BuiltinFunction::Input => {
            let after = input_effect(console, args).0;
            assert(continues(wrote, after)) by {
                assert(wrote.pending.subrange(0, wrote.pending.len() as int) =~= wrote.pending);
                if first_unprintable(args, 0) == args.len() && wrote.pending.len() > 0 {
                    assert(after.pending =~= wrote.pending.subrange(
                        1,
                        wrote.pending.len() as int,
                    ));
                }
            }
            lemma_continues(console, wrote, after);
        },
        _ => {},
    }
}

/// No evaluation takes back what was written, reads a line out of turn, or
/// feeds a console that was starved.
pub proof fn lemma_eval_continues(st: State, node: Ast, fuel: nat)
    ensures
        continues(st.console, eval(st, node, fuel).state.console),
    decreases fuel, 0int,
{
    lemma_continues(st.console, st.console, st.console);
    if fuel > 0 {
        let f = (fuel - 1) as nat;
        match node {
            Ast::Program(defs) => {
                lemma_program_continues(st, defs, 0, Val::Integer(0), f);
            },
            Ast::Expression(e) => {
                lemma_eval_continues(st, *e, f);
            },
            Ast::Term(e) => {
                lemma_eval_continues(st, *e, f);
            },
            Ast::FuncReturn(e) => {
                lemma_eval_continues(st, *e, f);
            },
            Ast::BinaryExpression { lhs, op, rhs } => {
                lemma_eval_continues(st, *lhs, f);
                let l = eval(st, *lhs, f);
                lemma_eval_continues(l.state, *rhs, f);
                lemma_continues(st.console, l.state.console, eval(l.state, *rhs, f).state.console);
            },
            Ast::UnaryExpression { op, child } => {
                lemma_eval_continues(st, *child, f);
            },
            Ast::Block(stmts) => {
                lemma_block_continues(st, stmts, 0, f);
            },
            Ast::VarDecl { name, value } => {
                match value {
                    Some(e) => {
                        lemma_eval_continues(st, *e, f);
                    },
                    None => {},
                }
            },
            Ast::VarSet { name, value } => {
                lemma_eval_continues(st, *value, f);
            },
            Ast::FuncCall { name, args } => {
                match lookup(st.env, name) {
                    Some(Val::Function(_, params, body)) => {
                        let n = bound_count(params, arguments(*args));
                        lemma_args_continue(st, arguments(*args), 0, n, Seq::empty(), f);
                        let a = eval_args(st, arguments(*args), 0, n, Seq::empty(), f);
                        match a.result {
                            Ok(values) => {
                                let entry = State {
                                    env: bind_all(push_frame(a.state.env), params, values, n),
                                    console: a.state.console,
                                };
                                lemma_eval_continues(entry, body, f);
                                lemma_continues(
                                    st.console,
                                    a.state.console,
                                    eval(entry, body, f).state.console,
                                );
                            },
                            Err(_) => {},
                        }
                    },
                    Some(Val::BuiltinFunction(func)) => {
                        let items = arguments(*args);
                        lemma_args_continue(st, items, 0, items.len() as int, Seq::empty(), f);
                        let a = eval_args(st, items, 0, items.len() as int, Seq::empty(), f);
                        match a.result {
                            Ok(values) => {
                                lemma_builtin_continues(func, a.state.console, values);
                                lemma_continues(
                                    st.console,
                                    a.state.console,
                                    call_builtin(func, a.state.console, values).0,
                                );
                            },
                            Err(_) => {},
                        }
                    },
                    _ => {},
                }
            },
            Ast::IfStatement { condition, body } => {
                lemma_eval_continues(st, *condition, f);
                let c = eval(st, *condition, f);
                lemma_eval_continues(c.state, *body, f);
                lemma_continues(st.console, c.state.console, eval(c.state, *body, f).state.console);
            },
            Ast::WhileLoop { condition, body } => {
                lemma_while_continues(st, *condition, *body, f);
            },
            Ast::ForLoop { params, body } => {
                match *params {
                    Ast::ForLoopParams { initialization, condition, updater } => {
                        lemma_eval_continues(st, *initialization, f);
                        let i = eval(st, *initialization, f);
                        lemma_for_continues(i.state, *condition, *body, *updater, f);
                        lemma_continues(
                            st.console,
                            i.state.console,
                            eval_for(i.state, *condition, *body, *updater, f).state.console,
                        );
                    },
                    _ => {},
                }
            },
            _ => {},
        }
    }
}

/// No program takes back what was written or reads a line out of turn.
pub proof fn lemma_program_continues(st: State, defs: Seq<Ast>, i: int, last: Val, fuel: nat)
    ensures
        continues(st.console, eval_program(st, defs, i, last, fuel).state.console),
    decreases fuel, defs.len() - i,
{
    lemma_continues(st.console, st.console, st.console);
    if 0 <= i < defs.len() {
        lemma_eval_continues(st, defs[i], fuel);
        let o = eval(st, defs[i], fuel);
        if o.result is Ok {
            lemma_program_continues(o.state, defs, i + 1, o.result->Ok_0, fuel);
            lemma_continues(
                st.console,
                o.state.console,
                eval_program(o.state, defs, i + 1, o.result->Ok_0, fuel).state.console,
            );
        }
    }
}

/// No block takes back what was written or reads a line out of turn.
pub proof fn lemma_block_continues(st: State, stmts: Seq<Ast>, i: int, fuel: nat)
    ensures
        continues(st.console, eval_block(st, stmts, i, fuel).state.console),
    decreases fuel, stmts.len() - i,
{
    lemma_continues(st.console, st.console, st.console);
    if 0 <= i < stmts.len() {
        lemma_eval_continues(st, stmts[i], fuel);
        let o = eval(st, stmts[i], fuel);
        if o.result is Ok && (o.result->Ok_0).is_zero() {
            lemma_block_continues(o.state, stmts, i + 1, fuel);
            lemma_continues(
                st.console,
                o.state.console,
                eval_block(o.state, stmts, i + 1, fuel).state.console,
            );
        }
    }
}

/// No list of arguments takes back what was written or reads a line out of
/// turn.
pub proof fn lemma_args_continue(
    st: State,
    args: Seq<Ast>,
    i: int,
    n: int,
    acc: Seq<Val>,
    fuel: nat,
)
    ensures
        continues(st.console, eval_args(st, args, i, n, acc, fuel).state.console),
    decreases fuel, n - i,
{
    lemma_continues(st.console, st.console, st.console);
    if 0 <= i < n && i < args.len() {
        lemma_eval_continues(st, args[i], fuel);
        let o = eval(st, args[i], fuel);
        if o.result is Ok {
            let next = acc.push(o.result->Ok_0);
            lemma_args_continue(o.state, args, i + 1, n, next, fuel);
            lemma_continues(
                st.console,
                o.state.console,
                eval_args(o.state, args, i + 1, n, next, fuel).state.console,
            );
        }
    }
}

/// No `while` loop takes back what was written or reads a line out of turn.
pub proof fn lemma_while_continues(st: State, condition: Ast, body: Ast, fuel: nat)
    ensures
        continues(st.console, eval_while(st, condition, body, fuel).state.console),
    decreases fuel, 1int,
{
    lemma_continues(st.console, st.console, st.console);
    if fuel > 0 {
        lemma_eval_continues(st, condition, fuel);
        let c = eval(st, condition, fuel);
        if c.result == Ok::<Val, Seq<char>>(Val::Boolean(true)) {
            lemma_eval_continues(c.state, body, fuel);
            let b = eval(c.state, body, fuel);
            lemma_continues(st.console, c.state.console, b.state.console);
            if b.result is Ok {
                lemma_while_continues(b.state, condition, body, (fuel - 1) as nat);
                lemma_continues(
                    st.console,
                    b.state.console,
                    eval_while(b.state, condition, body, (fuel - 1) as nat).state.console,
                );
            }
        }
    }
}

/// No `for` loop takes back what was written or reads a line out of turn.
pub proof fn lemma_for_continues(st: State, condition: Ast, body: Ast, updater: Ast, fuel: nat)
    ensures
        continues(st.console, eval_for(st, condition, body, updater, fuel).state.console),
    decreases fuel, 1int,
{
    lemma_continues(st.console, st.console, st.console);
    if fuel > 0 {
        lemma_eval_continues(st, condition, fuel);
        let c = eval(st, condition, fuel);
        if c.result == Ok::<Val, Seq<char>>(Val::Boolean(true)) {
            lemma_eval_continues(c.state, body, fuel);
            let b = eval(c.state, body, fuel);
            lemma_continues(st.console, c.state.console, b.state.console);
            if b.result is Ok {
                lemma_eval_continues(b.state, updater, fuel);
                let u = eval(b.state, updater, fuel);
                lemma_continues(st.console, b.state.console, u.state.console);
                if u.result is Ok {
                    lemma_for_continues(u.state, condition, body, updater, (fuel - 1) as nat);
                    lemma_continues(
                        st.console,
                        u.state.console,
                        eval_for(u.state, condition, body, updater, (fuel - 1) as nat).state.console,
                    );
                }
            }
        }
    }
}

/// Whether `more` is the state `less` with further lines waiting behind
/// those that wait in `less`, and neither console was starved.
pub open spec fn fed(less: State, more: State) -> bool {
    &&& less.env == more.env
    &&& less.console.output == more.console.output
    &&& !less.console.starved
    &&& !more.console.starved
    &&& less.console.pending.is_prefix_of(more.console.pending)
}

/// Whether the outcome `first` and the outcome `second` of one evaluation in
/// two states, of which the second had more lines waiting, go together:
/// where the first was not starved the two are the same, but for the lines
/// that still wait; where it was, it failed, and what it had written by then
/// the second wrote too, in front of what else it wrote.
pub open spec fn agree(first: Outcome, second: Outcome) -> bool {
    if first.state.console.starved {
        first.result is Err && first.state.console.output.is_prefix_of(
            second.state.console.output,
        )
    } else {
        first.result == second.result && fed(first.state, second.state)
    }
}

/// Whether two outcomes of one list of arguments go together.
pub open spec fn agree_args(first: ArgsOutcome, second: ArgsOutcome) -> bool {
    if first.state.console.starved {
        first.result is Err && first.state.console.output.is_prefix_of(
            second.state.console.output,
        )
    } else {
        first.result == second.result && fed(first.state, second.state)
    }
}

/// What stands in front of what stands in front of a text stands in front
/// of it.
pub proof fn lemma_prefix_chain(a: Seq<char>, b: Seq<char>, c: Seq<char>)
    requires
        a.is_prefix_of(b),
        b.is_prefix_of(c),
    ensures
        a.is_prefix_of(c),
{
    assert(a =~= c.subrange(0, a.len() as int));
}

/// A built-in function that is given more lines does the same, unless it
/// was starved: then the one with more lines wrote at least as much.
pub proof fn lemma_builtin_agrees(
    f: BuiltinFunction,
    less: ConsoleView,
    more: ConsoleView,
    args: Seq<Val>,
)
    requires
        less.output == more.output,
        !less.starved,
        !more.starved,
        less.pending.is_prefix_of(more.pending),
    ensures
        ({
            let (first, first_result) = call_builtin(f, less, args);
            let (second, second_result) = call_builtin(f, more, args);
            if first.starved {
                first_result is Err && first.output.is_prefix_of(second.output)
            } else {
                &&& first_result == second_result
                &&& first.output == second.output
                &&& !second.starved
                &&& first.pending.is_prefix_of(second.pending)
            }
        }),
{
    let (first, first_result) = call_builtin(f, less, args);
    let (second, second_result) = call_builtin(f, more, args);
    assert(first.output.is_prefix_of(first.output)) by {
        assert(first.output =~= first.output.subrange(0, first.output.len() as int));
    }
    match f {
        BuiltinFunction::Input => {
            if first_unprintable(args, 0) == args.len() && less.pending.len() > 0 {
                assert(less.pending[0] == more.pending.subrange(0, less.pending.len() as int)[0]);
                assert(first.pending =~= second.pending.subrange(0, first.pending.len() as int));
            }
        },
        _ => {},
    }
}

/// An evaluation that is given more lines goes the same way, until it asks
/// for a line that only the second run has.
pub proof fn lemma_eval_agrees(less: State, more: State, node: Ast, fuel: nat)
    requires
        fed(less, more),
    ensures
        agree(eval(less, node, fuel), eval(more, node, fuel)),
    decreases fuel, 0int,
{
    if fuel > 0 {
        let f = (fuel - 1) as nat;
        match node {
            Ast::Program(defs) => {
                lemma_program_agrees(less, more, defs, 0, Val::Integer(0), f);
            },
            Ast::Expression(e) => {
                lemma_eval_agrees(less, more, *e, f);
            },
            Ast::Term(e) => {
                lemma_eval_agrees(less, more, *e, f);
            },
            Ast::FuncReturn(e) => {
                lemma_eval_agrees(less, more, *e, f);
            },
            Ast::BinaryExpression { lhs, op, rhs } => {
                lemma_eval_agrees(less, more, *lhs, f);
                let l1 = eval(less, *lhs, f);
                let l2 = eval(more, *lhs, f);
                lemma_then_agrees(l1, l2, *rhs, f);
            },
            Ast::UnaryExpression { op, child } => {
                lemma_eval_agrees(less, more, *child, f);
            },
            Ast::Block(stmts) => {
                lemma_block_agrees(less, more, stmts, 0, f);
            },
            Ast::VarDecl { name, value } => {
                match value {
                    Some(e) => {
                        lemma_eval_agrees(less, more, *e, f);
                    },
                    None => {},
                }
            },
            Ast::VarSet { name, value } => {
                lemma_eval_agrees(less, more, *value, f);
            },
            Ast::FuncCall { name, args } => {
                match lookup(less.env, name) {
                    Some(Val::Function(_, params, body)) => {
                        let n = bound_count(params, arguments(*args));
                        lemma_args_agree(less, more, arguments(*args), 0, n, Seq::empty(), f);
                        let a1 = eval_args(less, arguments(*args), 0, n, Seq::empty(), f);
                        let a2 = eval_args(more, arguments(*args), 0, n, Seq::empty(), f);
                        match a2.result {
                            Ok(values) => {
                                let entry2 = State {
                                    env: bind_all(push_frame(a2.state.env), params, values, n),
                                    console: a2.state.console,
                                };
                                lemma_eval_continues(entry2, body, f);
                                let b2 = eval(entry2, body, f);
                                if a1.state.console.starved {
                                    lemma_prefix_chain(
                                        a1.state.console.output,
                                        a2.state.console.output,
                                        b2.state.console.output,
                                    );
                                } else {
                                    let entry1 = State {
                                        env: bind_all(push_frame(a1.state.env), params, values, n),
                                        console: a1.state.console,
                                    };
                                    lemma_eval_agrees(entry1, entry2, body, f);
                                }
                            },
                            Err(_) => {},
                        }
                    },
                    Some(Val::BuiltinFunction(func)) => {
                        let items = arguments(*args);
                        let n = items.len() as int;
                        lemma_args_agree(less, more, items, 0, n, Seq::empty(), f);
                        let a1 = eval_args(less, items, 0, n, Seq::empty(), f);
                        let a2 = eval_args(more, items, 0, n, Seq::empty(), f);
                        match a2.result {
                            Ok(values) => {
                                lemma_builtin_continues(func, a2.state.console, values);
                                if a1.state.console.starved {
                                    lemma_prefix_chain(
                                        a1.state.console.output,
                                        a2.state.console.output,
                                        call_builtin(func, a2.state.console, values).0.output,
                                    );
                                } else {
                                    lemma_builtin_agrees(
                                        func,
                                        a1.state.console,
                                        a2.state.console,
                                        values,
                                    );
                                }
                            },
                            Err(_) => {},
                        }
                    },
                    _ => {},
                }
            },
            Ast::IfStatement { condition, body } => {
                lemma_eval_agrees(less, more, *condition, f);
                let c1 = eval(less, *condition, f);
                let c2 = eval(more, *condition, f);
                lemma_then_agrees(c1, c2, *body, f);
            },
            Ast::WhileLoop { condition, body } => {
                lemma_while_agrees(less, more, *condition, *body, f);
            },
            Ast::ForLoop { params, body } => {
                match *params {
                    Ast::ForLoopParams { initialization, condition, updater } => {
                        lemma_eval_agrees(less, more, *initialization, f);
                        let i1 = eval(less, *initialization, f);
                        let i2 = eval(more, *initialization, f);
                        lemma_for_continues(i2.state, *condition, *body, *updater, f);
                        let l2 = eval_for(i2.state, *condition, *body, *updater, f);
                        if i1.state.console.starved {
                            lemma_prefix_chain(
                                i1.state.console.output,
                                i2.state.console.output,
                                l2.state.console.output,
                            );
                        } else {
                            lemma_for_agrees(i1.state, i2.state, *condition, *body, *updater, f);
                        }
                    },
                    _ => {},
                }
            },
            _ => {},
        }
    }
}

/// Where two outcomes go together, so do the outcomes of what is evaluated
/// next in their states; and where the first was starved, what it had
/// written the second still has in front after its next evaluation.
pub proof fn lemma_then_agrees(first: Outcome, second: Outcome, next: Ast, fuel: nat)
    requires
        agree(first, second),
    ensures
        !first.state.console.starved ==> agree(
            eval(first.state, next, fuel),
            eval(second.state, next, fuel),
        ),
        first.state.console.starved ==> first.state.console.output.is_prefix_of(
            eval(second.state, next, fuel).state.console.output,
        ),
    decreases fuel, 1int,
{
    lemma_eval_continues(second.state, next, fuel);
    if first.state.console.starved {
        lemma_prefix_chain(
            first.state.console.output,
            second.state.console.output,
            eval(second.state, next, fuel).state.console.output,
        );
    } else {
        lemma_eval_agrees(first.state, second.state, next, fuel);
    }
}

/// A program that is given more lines goes the same way, until it asks for
/// a line that only the second run has.
pub proof fn lemma_program_agrees(
    less: State,
    more: State,
    defs: Seq<Ast>,
    i: int,
    last: Val,
    fuel: nat,
)
    requires
        fed(less, more),
    ensures
        agree(eval_program(less, defs, i, last, fuel), eval_program(more, defs, i, last, fuel)),
    decreases fuel, defs.len() - i,
{
    if 0 <= i < defs.len() {
        lemma_eval_agrees(less, more, defs[i], fuel);
        let o1 = eval(less, defs[i], fuel);
        let o2 = eval(more, defs[i], fuel);
        if o2.result is Ok {
            let v = o2.result->Ok_0;
            lemma_program_continues(o2.state, defs, i + 1, v, fuel);
            if o1.state.console.starved {
                lemma_prefix_chain(
                    o1.state.console.output,
                    o2.state.console.output,
                    eval_program(o2.state, defs, i + 1, v, fuel).state.console.output,
                );
            } else {
                lemma_program_agrees(o1.state, o2.state, defs, i + 1, v, fuel);
            }
        }
    }
}

/// A block that is given more lines goes the same way, until it asks for a
/// line that only the second run has.
pub proof fn lemma_block_agrees(less: State, more: State, stmts: Seq<Ast>, i: int, fuel: nat)
    requires
        fed(less, more),
    ensures
        agree(eval_block(less, stmts, i, fuel), eval_block(more, stmts, i, fuel)),
    decreases fuel, stmts.len() - i,
{
    if 0 <= i < stmts.len() {
        lemma_eval_agrees(less, more, stmts[i], fuel);
        let o1 = eval(less, stmts[i], fuel);
        let o2 = eval(more, stmts[i], fuel);
        if o2.result is Ok && (o2.result->Ok_0).is_zero() {
            lemma_block_continues(o2.state, stmts, i + 1, fuel);
            if o1.state.console.starved {
                lemma_prefix_chain(
                    o1.state.console.output,
                    o2.state.console.output,
                    eval_block(o2.state, stmts, i + 1, fuel).state.console.output,
                );
            } else {
                lemma_block_agrees(o1.state, o2.state, stmts, i + 1, fuel);
            }
        }
    }
}

/// A list of arguments that is given more lines goes the same way, until
/// it asks for a line that only the second run has.
pub proof fn lemma_args_agree(
    less: State,
    more: State,
    args: Seq<Ast>,
    i: int,
    n: int,
    acc: Seq<Val>,
    fuel: nat,
)
    requires
        fed(less, more),
    ensures
        agree_args(
            eval_args(less, args, i, n, acc, fuel),
            eval_args(more, args, i, n, acc, fuel),
        ),
    decreases fuel, n - i,
{
    if 0 <= i < n && i < args.len() {
        lemma_eval_agrees(less, more, args[i], fuel);
        let o1 = eval(less, args[i], fuel);
        let o2 = eval(more, args[i], fuel);
        if o2.result is Ok {
            let next = acc.push(o2.result->Ok_0);
            lemma_args_continue(o2.state, args, i + 1, n, next, fuel);
            if o1.state.console.starved {
                lemma_prefix_chain(
                    o1.state.console.output,
                    o2.state.console.output,
                    eval_args(o2.state, args, i + 1, n, next, fuel).state.console.output,
                );
            } else {
                lemma_args_agree(o1.state, o2.state, args, i + 1, n, next, fuel);
            }
        }
    }
}

/// A `while` loop that is given more lines goes the same way, until it
/// asks for a line that only the second run has.
pub proof fn lemma_while_agrees(less: State, more: State, condition: Ast, body: Ast, fuel: nat)
    requires
        fed(less, more),
    ensures
        agree(
            eval_while(less, condition, body, fuel),
            eval_while(more, condition, body, fuel),
        ),
    decreases fuel, 2int,
{
    if fuel > 0 {
        lemma_eval_agrees(less, more, condition, fuel);
        let c1 = eval(less, condition, fuel);
        let c2 = eval(more, condition, fuel);
        if c2.result == Ok::<Val, Seq<char>>(Val::Boolean(true)) {
            lemma_then_agrees(c1, c2, body, fuel);
            let b1 = eval(c1.state, body, fuel);
            let b2 = eval(c2.state, body, fuel);
            if b2.result is Ok {
                let rest = eval_while(b2.state, condition, body, (fuel - 1) as nat);
                lemma_while_continues(b2.state, condition, body, (fuel - 1) as nat);
                if c1.state.console.starved {
                    lemma_prefix_chain(
                        c1.state.console.output,
                        b2.state.console.output,
                        rest.state.console.output,
                    );
                } else if b1.state.console.starved {
                    lemma_prefix_chain(
                        b1.state.console.output,
                        b2.state.console.output,
                        rest.state.console.output,
                    );
                } else {
                    lemma_while_agrees(b1.state, b2.state, condition, body, (fuel - 1) as nat);
                }
            }
        }
    }
}

/// A `for` loop that is given more lines goes the same way, until it asks
/// for a line that only the second run has.
pub proof fn lemma_for_agrees(
    less: State,
    more: State,
    condition: Ast,
    body: Ast,
    updater: Ast,
    fuel: nat,
)
    requires
        fed(less, more),
    ensures
        agree(
            eval_for(less, condition, body, updater, fuel),
            eval_for(more, condition, body, updater, fuel),
        ),
    decreases fuel, 2int,
{
    if fuel > 0 {
        lemma_eval_agrees(less, more, condition, fuel);
        let c1 = eval(less, condition, fuel);
        let c2 = eval(more, condition, fuel);
        if c2.result == Ok::<Val, Seq<char>>(Val::Boolean(true)) {
            lemma_then_agrees(c1, c2, body, fuel);
            let b1 = eval(c1.state, body, fuel);
            let b2 = eval(c2.state, body, fuel);
            if b2.result is Ok {
                lemma_eval_continues(b2.state, updater, fuel);
                let u2 = eval(b2.state, updater, fuel);
                let first_out = if c1.state.console.starved {
                    c1.state.console.output
                } else {
                    b1.state.console.output
                };
                if c1.state.console.starved || b1.state.console.starved {
                    lemma_prefix_chain(first_out, b2.state.console.output, u2.state.console.output);
                    if u2.result is Ok {
                        let rest = eval_for(u2.state, condition, body, updater, (fuel - 1) as nat);
                        lemma_for_continues(u2.state, condition, body, updater, (fuel - 1) as nat);
                        lemma_prefix_chain(
                            first_out,
                            u2.state.console.output,
                            rest.state.console.output,
                        );
                    }
                } else {
                    lemma_eval_agrees(b1.state, b2.state, updater, fuel);
                    let u1 = eval(b1.state, updater, fuel);
                    if u2.result is Ok {
                        let rest = eval_for(u2.state, condition, body, updater, (fuel - 1) as nat);
                        lemma_for_continues(u2.state, condition, body, updater, (fuel - 1) as nat);
                        if u1.state.console.starved {
                            lemma_prefix_chain(
                                u1.state.console.output,
                                u2.state.console.output,
                                rest.state.console.output,
                            );
                        } else {
                            lemma_for_agrees(
                                u1.state,
                                u2.state,
                                condition,
                                body,
                                updater,
                                (fuel - 1) as nat,
                            );
                        }
                    }
                }
            }
        }
    }
}

/// Function definitions neither read nor write: binding them leaves the
/// console as it was.
pub proof fn lemma_definitions_keep_console(st: State, defs: Seq<Ast>, i: int, last: Val, fuel: nat)
    requires
        forall|k: int| 0 <= k < defs.len() ==> (#[trigger] defs[k]) is FuncDef,
    ensures
        eval_program(st, defs, i, last, fuel).state.console == st.console,
    decreases defs.len() - i,
{
    if 0 <= i < defs.len() {
        assert(defs[i] is FuncDef);
        let o = eval(st, defs[i], fuel);
        assert(o.state.console == st.console);
        if o.result is Ok {
            lemma_definitions_keep_console(o.state, defs, i + 1, o.result->Ok_0, fuel);
        }
    }
}

/// A run that is given more lines goes the same way, until it asks for a
/// line that only the second run has: from then on the second run writes
/// behind what the first had written.
pub proof fn lemma_run_agrees(less: State, more: State, program: Ast, fuel: nat)
    requires
        fed(less, more),
        program.definitions_only(),
    ensures
        agree(run(less, program, fuel), run(more, program, fuel)),
{
    lemma_eval_agrees(less, more, program, fuel);
    let d1 = eval(less, program, fuel).state;
    let d2 = eval(more, program, fuel).state;
    if fuel > 0 {
        lemma_definitions_keep_console(
            less,
            program->Program_0,
            0,
            Val::Integer(0),
            (fuel - 1) as nat,
        );
    }
    assert(fed(d1, d2));
    match lookup(d1.env, "main"@) {
        Some(Val::Function(_, params, body)) => {
            if params.len() == 0 {
                let e1 = State { env: push_frame(d1.env), console: d1.console };
                let e2 = State { env: push_frame(d2.env), console: d2.console };
                lemma_eval_agrees(e1, e2, body, fuel);
            }
        },
        _ => {},
    }
}

/// What a session shows in a step continues what it showed before: where a
/// run asked for a line in vain, the run with one more line writes all that
/// the first wrote, and the rest behind it.
pub proof fn lemma_replay_continues(
    program: Ast,
    lines: Seq<Seq<char>>,
    line: Seq<char>,
    limit: nat,
)
    requires
        program.definitions_only(),
        replay(program, lines, limit).state.console.starved,
    ensures
        ({
            let before = replay(program, lines, limit).state.console.output;
            let after = replay(program, lines.push(line), limit).state.console.output;
            before + unseen(after, before.len()) == after
        }),
{
    let less = State {
        env: seq![global_frame()],
        console: ConsoleView { pending: lines, output: Seq::empty(), starved: false },
    };
    let more = State {
        env: seq![global_frame()],
        console: ConsoleView { pending: lines.push(line), output: Seq::empty(), starved: false },
    };
    assert(lines =~= lines.push(line).subrange(0, lines.len() as int));
    lemma_run_agrees(less, more, program, limit);
    let before = replay(program, lines, limit).state.console.output;
    let after = replay(program, lines.push(line), limit).state.console.output;
    assert(before + unseen(after, before.len()) =~= after);
}

/// Whether the outcome `first` of an evaluation and the outcome `second`
/// of the same evaluation under a larger bound go together: where the first
/// did not reach its bound the two are the same; where it did, what it had
/// written by then the second wrote too, in front of what else it wrote.
pub open spec fn goes_on(first: Outcome, second: Outcome) -> bool {
    if out_of_fuel(first.result) {
        first.state.console.output.is_prefix_of(second.state.console.output)
    } else {
        first == second
    }
}

/// Whether two outcomes of one list of arguments, the second under a
/// larger bound, go together.
pub open spec fn args_go_on(first: ArgsOutcome, second: ArgsOutcome) -> bool {
    if out_of_fuel_args(first.result) {
        first.state.console.output.is_prefix_of(second.state.console.output)
    } else {
        first == second
    }
}

/// An evaluation under a larger bound goes the same way, and further where
/// the smaller bound stopped it.
pub proof fn lemma_eval_goes_on(st: State, node: Ast, fuel: nat)
    ensures
        goes_on(eval(st, node, fuel), eval(st, node, fuel + 1)),
    decreases fuel, 0int,
{
    lemma_eval_continues(st, node, fuel + 1);
    if fuel > 0 {
        let f = (fuel - 1) as nat;
        match node {
            Ast::Program(defs) => {
                lemma_program_goes_on(st, defs, 0, Val::Integer(0), f);
            },
            Ast::Expression(e) => {
                lemma_eval_goes_on(st, *e, f);
            },
            Ast::Term(e) => {
                lemma_eval_goes_on(st, *e, f);
            },
            Ast::FuncReturn(e) => {
                lemma_eval_goes_on(st, *e, f);
            },
            Ast::BinaryExpression { lhs, op, rhs } => {
                lemma_eval_goes_on(st, *lhs, f);
                lemma_then_goes_on(eval(st, *lhs, f), eval(st, *lhs, fuel), *rhs, f);
            },
            Ast::UnaryExpression { op, child } => {
                lemma_eval_goes_on(st, *child, f);
            },
            Ast::Block(stmts) => {
                lemma_block_goes_on(st, stmts, 0, f);
            },
            Ast::VarDecl { name, value } => {
                match value {
                    Some(e) => {
                        lemma_eval_goes_on(st, *e, f);
                    },
                    None => {},
                }
            },
            Ast::VarSet { name, value } => {
                lemma_eval_goes_on(st, *value, f);
            },
            Ast::FuncCall { name, args } => {
                match lookup(st.env, name) {
                    Some(Val::Function(_, params, body)) => {
                        let n = bound_count(params, arguments(*args));
                        lemma_args_go_on(st, arguments(*args), 0, n, Seq::empty(), f);
                        let a1 = eval_args(st, arguments(*args), 0, n, Seq::empty(), f);
                        let a2 = eval_args(st, arguments(*args), 0, n, Seq::empty(), fuel);
                        match a2.result {
                            Ok(values) => {
                                let entry = State {
                                    env: bind_all(push_frame(a2.state.env), params, values, n),
                                    console: a2.state.console,
                                };
                                lemma_eval_continues(entry, body, fuel);
                                if out_of_fuel_args(a1.result) {
                                    lemma_prefix_chain(
                                        a1.state.console.output,
                                        a2.state.console.output,
                                        eval(entry, body, fuel).state.console.output,
                                    );
                                } else {
                                    lemma_eval_goes_on(entry, body, f);
                                }
                            },
                            Err(_) => {},
                        }
                    },
                    Some(Val::BuiltinFunction(func)) => {
                        let items = arguments(*args);
                        let n = items.len() as int;
                        lemma_args_go_on(st, items, 0, n, Seq::empty(), f);
                        let a1 = eval_args(st, items, 0, n, Seq::empty(), f);
                        let a2 = eval_args(st, items, 0, n, Seq::empty(), fuel);
                        match a2.result {
                            Ok(values) => {
                                lemma_builtin_continues(func, a2.state.console, values);
                                if out_of_fuel_args(a1.result) {
                                    lemma_prefix_chain(
                                        a1.state.console.output,
                                        a2.state.console.output,
                                        call_builtin(func, a2.state.console, values).0.output,
                                    );
                                }
                            },
                            Err(_) => {},
                        }
                    },
                    _ => {},
                }
            },
            Ast::IfStatement { condition, body } => {
                lemma_eval_goes_on(st, *condition, f);
                lemma_then_goes_on(eval(st, *condition, f), eval(st, *condition, fuel), *body, f);
            },
            Ast::WhileLoop { condition, body } => {
                lemma_while_goes_on(st, *condition, *body, f);
            },
            Ast::ForLoop { params, body } => {
                match *params {
                    Ast::ForLoopParams { initialization, condition, updater } => {
                        lemma_eval_goes_on(st, *initialization, f);
                        let i1 = eval(st, *initialization, f);
                        let i2 = eval(st, *initialization, fuel);
                        lemma_for_continues(i2.state, *condition, *body, *updater, fuel);
                        if out_of_fuel(i1.result) {
                            lemma_prefix_chain(
                                i1.state.console.output,
                                i2.state.console.output,
                                eval_for(
                                    i2.state,
                                    *condition,
                                    *body,
                                    *updater,
                                    fuel,
                                ).state.console.output,
                            );
                        } else {
                            lemma_for_goes_on(i1.state, *condition, *body, *updater, f);
                        }
                    },
                    _ => {},
                }
            },
            _ => {},
        }
    }
}

/// Where two outcomes go together, so do the outcomes of what is evaluated
/// next in their states, the second under the larger bound; and where the
/// first had reached its bound, what it had written the second still has in
/// front after its next evaluation.
pub proof fn lemma_then_goes_on(first: Outcome, second: Outcome, next: Ast, fuel: nat)
    requires
        goes_on(first, second),
    ensures
        !out_of_fuel(first.result) ==> goes_on(
            eval(first.state, next, fuel),
            eval(second.state, next, fuel + 1),
        ),
        out_of_fuel(first.result) ==> first.state.console.output.is_prefix_of(
            eval(second.state, next, fuel + 1).state.console.output,
        ),
    decreases fuel, 1int,
{
    lemma_eval_continues(second.state, next, fuel + 1);
    if out_of_fuel(first.result) {
        lemma_prefix_chain(
            first.state.console.output,
            second.state.console.output,
            eval(second.state, next, fuel + 1).state.console.output,
        );
    } else {
        lemma_eval_goes_on(first.state, next, fuel);
    }
}

/// A program under a larger bound goes the same way, and further where the
/// smaller bound stopped it.
pub proof fn lemma_program_goes_on(st: State, defs: Seq<Ast>, i: int, last: Val, fuel: nat)
    ensures
        goes_on(
            eval_program(st, defs, i, last, fuel),
            eval_program(st, defs, i, last, fuel + 1),
        ),
    decreases fuel, defs.len() - i,
{
    lemma_program_continues(st, defs, i, last, fuel + 1);
    if 0 <= i < defs.len() {
        lemma_eval_goes_on(st, defs[i], fuel);
        let o1 = eval(st, defs[i], fuel);
        let o2 = eval(st, defs[i], fuel + 1);
        if o2.result is Ok {
            let v = o2.result->Ok_0;
            lemma_program_continues(o2.state, defs, i + 1, v, fuel + 1);
            if out_of_fuel(o1.result) {
                lemma_prefix_chain(
                    o1.state.console.output,
                    o2.state.console.output,
                    eval_program(o2.state, defs, i + 1, v, fuel + 1).state.console.output,
                );
            } else {
                lemma_program_goes_on(o1.state, defs, i + 1, v, fuel);
            }
        }
    } else {
        assert(st.console.output.is_prefix_of(st.console.output)) by {
            lemma_continues(st.console, st.console, st.console);
        }
    }
}

/// A block under a larger bound goes the same way, and further where the
/// smaller bound stopped it.
pub proof fn lemma_block_goes_on(st: State, stmts: Seq<Ast>, i: int, fuel: nat)
    ensures
        goes_on(eval_block(st, stmts, i, fuel), eval_block(st, stmts, i, fuel + 1)),
    decreases fuel, stmts.len() - i,
{
    lemma_block_continues(st, stmts, i, fuel + 1);
    if 0 <= i < stmts.len() {
        lemma_eval_goes_on(st, stmts[i], fuel);
        let o1 = eval(st, stmts[i], fuel);
        let o2 = eval(st, stmts[i], fuel + 1);
        if o2.result is Ok && (o2.result->Ok_0).is_zero() {
            lemma_block_continues(o2.state, stmts, i + 1, fuel + 1);
            if out_of_fuel(o1.result) {
                lemma_prefix_chain(
                    o1.state.console.output,
                    o2.state.console.output,
                    eval_block(o2.state, stmts, i + 1, fuel + 1).state.console.output,
                );
            } else {
                lemma_block_goes_on(o1.state, stmts, i + 1, fuel);
            }
        }
    }
}

/// A list of arguments under a larger bound goes the same way, and further
/// where the smaller bound stopped it.
pub proof fn lemma_args_go_on(st: State, args: Seq<Ast>, i: int, n: int, acc: Seq<Val>, fuel: nat)
    ensures
        args_go_on(
            eval_args(st, args, i, n, acc, fuel),
            eval_args(st, args, i, n, acc, fuel + 1),
        ),
    decreases fuel, n - i,
{
    lemma_args_continue(st, args, i, n, acc, fuel + 1);
    if 0 <= i < n && i < args.len() {
        lemma_eval_goes_on(st, args[i], fuel);
        let o1 = eval(st, args[i], fuel);
        let o2 = eval(st, args[i], fuel + 1);
        if o2.result is Ok {
            let next = acc.push(o2.result->Ok_0);
            lemma_args_continue(o2.state, args, i + 1, n, next, fuel + 1);
            if out_of_fuel(o1.result) {
                lemma_prefix_chain(
                    o1.state.console.output,
                    o2.state.console.output,
                    eval_args(o2.state, args, i + 1, n, next, fuel + 1).state.console.output,
                );
            } else {
                lemma_args_go_on(o1.state, args, i + 1, n, next, fuel);
            }
        }
    }
}

/// A `while` loop under a larger bound goes the same way, and further
/// where the smaller bound stopped it.
pub proof fn lemma_while_goes_on(st: State, condition: Ast, body: Ast, fuel: nat)
    ensures
        goes_on(
            eval_while(st, condition, body, fuel),
            eval_while(st, condition, body, fuel + 1),
        ),
    decreases fuel, 2int,
{
    lemma_while_continues(st, condition, body, fuel + 1);
    if fuel > 0 {
        lemma_eval_goes_on(st, condition, fuel);
        let c1 = eval(st, condition, fuel);
        let c2 = eval(st, condition, fuel + 1);
        if c2.result == Ok::<Val, Seq<char>>(Val::Boolean(true)) {
            lemma_then_goes_on(c1, c2, body, fuel);
            let b1 = eval(c1.state, body, fuel);
            let b2 = eval(c2.state, body, fuel + 1);
            if b2.result is Ok {
                let rest = eval_while(b2.state, condition, body, fuel);
                lemma_while_continues(b2.state, condition, body, fuel);
                if out_of_fuel(c1.result) {
                    lemma_prefix_chain(
                        c1.state.console.output,
                        b2.state.console.output,
                        rest.state.console.output,
                    );
                } else if out_of_fuel(b1.result) {
                    lemma_prefix_chain(
                        b1.state.console.output,
                        b2.state.console.output,
                        rest.state.console.output,
                    );
                } else {
                    lemma_while_goes_on(b1.state, condition, body, (fuel - 1) as nat);
                }
            }
        }
    }
}

/// A `for` loop under a larger bound goes the same way, and further where
/// the smaller bound stopped it.
pub proof fn lemma_for_goes_on(st: State, condition: Ast, body: Ast, updater: Ast, fuel: nat)
    ensures
        goes_on(
            eval_for(st, condition, body, updater, fuel),
            eval_for(st, condition, body, updater, fuel + 1),
        ),
    decreases fuel, 2int,
{
    lemma_for_continues(st, condition, body, updater, fuel + 1);
    if fuel > 0 {
        lemma_eval_goes_on(st, condition, fuel);
        let c1 = eval(st, condition, fuel);
        let c2 = eval(st, condition, fuel + 1);
        if c2.result == Ok::<Val, Seq<char>>(Val::Boolean(true)) {
            lemma_then_goes_on(c1, c2, body, fuel);
            let b1 = eval(c1.state, body, fuel);
            let b2 = eval(c2.state, body, fuel + 1);
            if b2.result is Ok {
                lemma_eval_continues(b2.state, updater, fuel + 1);
                let u2 = eval(b2.state, updater, fuel + 1);
                let stopped = out_of_fuel(c1.result) || out_of_fuel(b1.result);
                let first_out = if out_of_fuel(c1.result) {
                    c1.state.console.output
                } else {
                    b1.state.console.output
                };
                if stopped {
                    lemma_prefix_chain(first_out, b2.state.console.output, u2.state.console.output);
                    if u2.result is Ok {
                        let rest = eval_for(u2.state, condition, body, updater, fuel);
                        lemma_for_continues(u2.state, condition, body, updater, fuel);
                        lemma_prefix_chain(
                            first_out,
                            u2.state.console.output,
                            rest.state.console.output,
                        );
                    }
                } else {
                    lemma_eval_goes_on(b1.state, updater, fuel);
                    let u1 = eval(b1.state, updater, fuel);
                    if u2.result is Ok {
                        let rest = eval_for(u2.state, condition, body, updater, fuel);
                        lemma_for_continues(u2.state, condition, body, updater, fuel);
                        if out_of_fuel(u1.result) {
                            lemma_prefix_chain(
                                u1.state.console.output,
                                u2.state.console.output,
                                rest.state.console.output,
                            );
                        } else {
                            lemma_for_goes_on(
                                u1.state,
                                condition,
                                body,
                                updater,
                                (fuel - 1) as nat,
                            );
                        }
                    }
                }
            }
        }
    }
}

/// An evaluation under any larger bound goes the same way, and further
/// where the smaller bound stopped it.
pub proof fn lemma_eval_goes_far(st: State, node: Ast, fuel: nat, more: nat)
    requires
        fuel <= more,
    ensures
        goes_on(eval(st, node, fuel), eval(st, node, more)),
    decreases more - fuel,
{
    if fuel < more {
        lemma_eval_goes_on(st, node, fuel);
        lemma_eval_goes_far(st, node, fuel + 1, more);
        if out_of_fuel(eval(st, node, fuel).result) && out_of_fuel(
            eval(st, node, fuel + 1).result,
        ) {
            lemma_prefix_chain(
                eval(st, node, fuel).state.console.output,
                eval(st, node, fuel + 1).state.console.output,
                eval(st, node, more).state.console.output,
            );
        }
    } else {
        lemma_continues(st.console, st.console, st.console);
        lemma_eval_continues(st, node, fuel);
        let out = eval(st, node, fuel).state.console.output;
        assert(out.is_prefix_of(out)) by {
            assert(out =~= out.subrange(0, out.len() as int));
        }
    }
}

/// Function definitions are bound under every bound of 1 or more, in the
/// same way.
pub proof fn lemma_definitions_need_no_fuel(
    st: State,
    defs: Seq<Ast>,
    i: int,
    last: Val,
    fuel: nat,
    more: nat,
)
    requires
        forall|k: int| 0 <= k < defs.len() ==> (#[trigger] defs[k]) is FuncDef,
        1 <= fuel <= more,
    ensures
        eval_program(st, defs, i, last, more) == eval_program(st, defs, i, last, fuel),
    decreases defs.len() - i,
{
    if 0 <= i < defs.len() {
        assert(defs[i] is FuncDef);
        let o = eval(st, defs[i], fuel);
        assert(eval(st, defs[i], more) == o);
        if o.result is Ok {
            lemma_definitions_need_no_fuel(o.state, defs, i + 1, o.result->Ok_0, fuel, more);
        }
    }
}

/// A run under a larger bound goes the same way, and further where the
/// smaller bound stopped it.
pub proof fn lemma_run_goes_far(st: State, program: Ast, fuel: nat, more: nat)
    requires
        program.definitions_only(),
        2 <= fuel <= more,
    ensures
        goes_on(run(st, program, fuel), run(st, program, more)),
{
    let defs = program->Program_0;
    lemma_definitions_need_no_fuel(
        st,
        defs,
        0,
        Val::Integer(0),
        (fuel - 1) as nat,
        (more - 1) as nat,
    );
    let defined = eval(st, program, fuel).state;
    assert(eval(st, program, more).state == defined);
    let out = run(st, program, fuel).state.console.output;
    match lookup(defined.env, "main"@) {
        Some(Val::Function(_, params, body)) => {
            if params.len() == 0 {
                let entry = State { env: push_frame(defined.env), console: defined.console };
                lemma_eval_goes_far(entry, body, fuel, more);
            } else {
                assert(out =~= out.subrange(0, out.len() as int));
            }
        },
        _ => {
            assert(out =~= out.subrange(0, out.len() as int));
        },
    }
}

/// What a session shows in a step continues what it showed before: where a
/// run reached its bound, the run under a larger bound writes all that the
/// first wrote, and the rest behind it.
pub proof fn lemma_replay_goes_far(program: Ast, lines: Seq<Seq<char>>, limit: nat, more: nat)
    requires
        program.definitions_only(),
        2 <= limit <= more,
        out_of_fuel(replay(program, lines, limit).result),
    ensures
        ({
            let before = replay(program, lines, limit).state.console.output;
            let after = replay(program, lines, more).state.console.output;
            before + unseen(after, before.len()) == after
        }),
{
    let st = State {
        env: seq![global_frame()],
        console: ConsoleView { pending: lines, output: Seq::empty(), starved: false },
    };
    lemma_run_goes_far(st, program, limit, more);
    let before = replay(program, lines, limit).state.console.output;
    let after = replay(program, lines, more).state.console.output;
    assert(before + unseen(after, before.len()) =~= after);
}

/// What a step shows is what the program wrote since the step before: the
/// output of the run of one step, with what the next step shows behind it,
/// is the output of the run of the next step. This holds where the session
/// is served as it asks: a line is handed over after a step that asked for
/// one, and none after a step that asked for more.
pub proof fn lemma_steps_join(
    s: SessionView,
    first: Option<Seq<char>>,
    second: Option<Seq<char>>,
)
    requires
        s.program.definitions_only(),
        s.limit >= 2,
        step(s, first).1 is More ==> second is None,
        !(step(s, first).1 is End),
    ensures
        written_in_step(s, first) + step(step(s, first).0, second).1.text() == written_in_step(
            step(s, first).0,
            second,
        ),
{
    let (after, action) = step(s, first);
    let lines = after.lines;
    let before = written_in_step(s, first);
    match action {
        ActionView::Read { text } => {
            match second {
                Some(line) => {
                    lemma_replay_continues(s.program, lines, line, s.limit);
                },
                None => {
                    assert(before + unseen(before, before.len()) =~= before);
                },
            }
        },
        ActionView::More { text } => {
            lemma_replay_goes_far(s.program, lines, s.limit, next_limit(s.limit));
        },
        _ => {},
    }
}

/// The first step of a session shows all that its run wrote.
pub proof fn lemma_first_step_shows_all(s: SessionView, line: Option<Seq<char>>)
    requires
        s.shown == 0,
    ensures
        step(s, line).1.text() == written_in_step(s, line),
{
    let out = written_in_step(s, line);
    assert(unseen(out, 0) =~= out);
}

/// The run with which a session ends is the run under the largest bound:
/// the growing bound of a session changes nothing but when its output is
/// shown.
pub proof fn lemma_end_is_the_whole_run(s: SessionView, line: Option<Seq<char>>)
    requires
        s.program.definitions_only(),
        2 <= s.limit <= u64::MAX,
        step(s, line).1 is End,
    ensures
        replay(s.program, step(s, line).0.lines, s.limit) == replay(
            s.program,
            step(s, line).0.lines,
            u64::MAX as nat,
        ),
{
    let lines = step(s, line).0.lines;
    let st = State {
        env: seq![global_frame()],
        console: ConsoleView { pending: lines, output: Seq::empty(), starved: false },
    };
    lemma_run_goes_far(st, s.program, s.limit, u64::MAX as nat);
}

} // verus!
