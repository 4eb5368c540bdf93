//! What holds of every evaluation.

use crate::ast::{all_expressions, is_expression, Ast};
use crate::environment::{bind, bind_all, lookup, push_frame, Frame};
use crate::semantics::{
    arguments, bound_count, done, eval, eval_args, eval_block, eval_for, eval_program, eval_while,
    limit_exceeded, run, State,
};
use crate::value::Val;
use vstd::prelude::*;

verus! {

/// Whether two environments have the same frames under their innermost one.
pub open spec fn same_ancestors(a: Seq<Frame>, b: Seq<Frame>) -> bool {
    a.len() == b.len() && a.len() >= 1 && a.drop_first() == b.drop_first()
}

/// Binding a name shadows and never rebinds: it changes the innermost frame
/// only. Every frame under it stays as it was, also where it binds the same
/// name, and the name is then found with its new value.
pub proof fn lemma_bind_keeps_ancestors(env: Seq<Frame>, name: Seq<char>, v: Val)
    requires
        env.len() >= 1,
    ensures
        same_ancestors(bind(env, name, v), env),
        forall|i: int| 1 <= i < env.len() ==> bind(env, name, v)[i] == env[i],
        lookup(bind(env, name, v).drop_first(), name) == lookup(env.drop_first(), name),
        lookup(bind(env, name, v), name) == Some(v),
{
    assert(bind(env, name, v).drop_first() =~= env.drop_first());
}

/// Binding a list of names changes the innermost frame only.
pub proof fn lemma_bind_all_keeps_ancestors(
    env: Seq<Frame>,
    names: Seq<Seq<char>>,
    values: Seq<Val>,
    n: int,
)
    requires
        env.len() >= 1,
    ensures
        same_ancestors(bind_all(env, names, values, n), env),
    decreases n,
{
    if n > 0 {
        lemma_bind_all_keeps_ancestors(env, names, values, n - 1);
        lemma_bind_keeps_ancestors(
            bind_all(env, names, values, n - 1),
            names[n - 1],
            values[n - 1],
        );
    }
}

/// A frame that was pushed and is taken off again leaves the environment
/// as it was.
pub proof fn lemma_push_then_drop(env: Seq<Frame>)
    ensures
        push_frame(env).drop_first() == env,
        push_frame(env).len() == env.len() + 1,
{
    assert(push_frame(env).drop_first() =~= env);
}

/// No evaluation that succeeds changes a frame under the innermost one, and
/// none leaves a frame behind or takes one away.
pub proof fn lemma_eval_keeps_ancestors(st: State, node: Ast, fuel: nat)
    requires
        st.env.len() >= 1,
    ensures
        eval(st, node, fuel).result is Ok ==> same_ancestors(eval(st, node, fuel).state.env, st.env),
    decreases fuel, 0int,
{
    if fuel > 0 {
        let f = (fuel - 1) as nat;
        match node {
            Ast::Program(defs) => {
                lemma_program_keeps_ancestors(st, defs, 0, Val::Integer(0), f);
            },
            Ast::FuncDef { name, args, body } => {
                match *args {
                    Ast::DefArgList(params) => {
                        lemma_bind_keeps_ancestors(st.env, name, Val::Function(name, params, *body));
                    },
                    _ => {},
                }
            },
            Ast::Expression(e) => {
                lemma_eval_keeps_ancestors(st, *e, f);
            },
            Ast::Term(e) => {
                lemma_eval_keeps_ancestors(st, *e, f);
            },
            Ast::FuncReturn(e) => {
                lemma_eval_keeps_ancestors(st, *e, f);
            },
            Ast::BinaryExpression { lhs, op, rhs } => {
                lemma_eval_keeps_ancestors(st, *lhs, f);
                let l = eval(st, *lhs, f);
                if l.result is Ok {
                    lemma_eval_keeps_ancestors(l.state, *rhs, f);
                }
            },
            Ast::UnaryExpression { op, child } => {
                lemma_eval_keeps_ancestors(st, *child, f);
            },
            Ast::Block(stmts) => {
                lemma_block_keeps_ancestors(st, stmts, 0, f);
            },
            Ast::VarDecl { name, value } => {
                match value {
                    Some(e) => {
                        lemma_eval_keeps_ancestors(st, *e, f);
                        let o = eval(st, *e, f);
                        if o.result is Ok {
                            lemma_bind_keeps_ancestors(o.state.env, name, o.result->Ok_0);
                        }
                    },
                    None => {
                        lemma_bind_keeps_ancestors(st.env, name, Val::Integer(0));
                    },
                }
            },
            Ast::VarSet { name, value } => {
                lemma_eval_keeps_ancestors(st, *value, f);
                let o = eval(st, *value, f);
                if o.result is Ok {
                    lemma_bind_keeps_ancestors(o.state.env, name, o.result->Ok_0);
                }
            },
            Ast::FuncCall { name, args } => {
                match lookup(st.env, name) {
                    Some(Val::Function(_, params, body)) => {
                        let n = bound_count(params, arguments(*args));
                        lemma_args_keep_ancestors(st, arguments(*args), 0, n, Seq::empty(), f);
                    },
                    Some(Val::BuiltinFunction(func)) => {
                        let items = arguments(*args);
                        lemma_args_keep_ancestors(st, items, 0, items.len() as int, Seq::empty(), f);
                    },
                    _ => {},
                }
            },
            Ast::IfStatement { condition, body } => {
                lemma_eval_keeps_ancestors(st, *condition, f);
                let c = eval(st, *condition, f);
                if c.result is Ok {
                    lemma_eval_keeps_ancestors(c.state, *body, f);
                }
            },
            Ast::WhileLoop { condition, body } => {
                lemma_while_keeps_ancestors(st, *condition, *body, f);
            },
            Ast::ForLoop { params, body } => {
                match *params {
                    Ast::ForLoopParams { initialization, condition, updater } => {
                        lemma_eval_keeps_ancestors(st, *initialization, f);
                        let i = eval(st, *initialization, f);
                        if i.result is Ok {
                            lemma_for_keeps_ancestors(i.state, *condition, *body, *updater, f);
                        }
                    },
                    _ => {},
                }
            },
            _ => {},
        }
    }
}

/// The definitions of a program change the innermost frame only.
pub proof fn lemma_program_keeps_ancestors(st: State, defs: Seq<Ast>, i: int, last: Val, fuel: nat)
    requires
        st.env.len() >= 1,
    ensures
        eval_program(st, defs, i, last, fuel).result is Ok ==> same_ancestors(
            eval_program(st, defs, i, last, fuel).state.env,
            st.env,
        ),
    decreases fuel, defs.len() - i,
{
    if 0 <= i < defs.len() {
        lemma_eval_keeps_ancestors(st, defs[i], fuel);
        let o = eval(st, defs[i], fuel);
        if o.result is Ok {
            lemma_program_keeps_ancestors(o.state, defs, i + 1, o.result->Ok_0, fuel);
        }
    }
}

/// The statements of a block change the innermost frame only.
pub proof fn lemma_block_keeps_ancestors(st: State, stmts: Seq<Ast>, i: int, fuel: nat)
    requires
        st.env.len() >= 1,
    ensures
        eval_block(st, stmts, i, fuel).result is Ok ==> same_ancestors(
            eval_block(st, stmts, i, fuel).state.env,
            st.env,
        ),
    decreases fuel, stmts.len() - i,
{
    if 0 <= i < stmts.len() {
        lemma_eval_keeps_ancestors(st, stmts[i], fuel);
        let o = eval(st, stmts[i], fuel);
        if o.result is Ok && (o.result->Ok_0).is_zero() {
            lemma_block_keeps_ancestors(o.state, stmts, i + 1, fuel);
        }
    }
}

/// The arguments of a call change the innermost frame only.
pub proof fn lemma_args_keep_ancestors(
    st: State,
    args: Seq<Ast>,
    i: int,
    n: int,
    acc: Seq<Val>,
    fuel: nat,
)
    requires
        st.env.len() >= 1,
    ensures
        eval_args(st, args, i, n, acc, fuel).result is Ok ==> same_ancestors(
            eval_args(st, args, i, n, acc, fuel).state.env,
            st.env,
        ),
    decreases fuel, n - i,
{
    if 0 <= i < n && i < args.len() {
        lemma_eval_keeps_ancestors(st, args[i], fuel);
        let o = eval(st, args[i], fuel);
        if o.result is Ok {
            lemma_args_keep_ancestors(o.state, args, i + 1, n, acc.push(o.result->Ok_0), fuel);
        }
    }
}

/// A `while` loop changes the innermost frame only.
pub proof fn lemma_while_keeps_ancestors(st: State, condition: Ast, body: Ast, fuel: nat)
    requires
        st.env.len() >= 1,
    ensures
        eval_while(st, condition, body, fuel).result is Ok ==> same_ancestors(
            eval_while(st, condition, body, fuel).state.env,
            st.env,
        ),
    decreases fuel, 1int,
{
    if fuel > 0 {
        lemma_eval_keeps_ancestors(st, condition, fuel);
        let c = eval(st, condition, fuel);
        if c.result == Ok::<Val, Seq<char>>(Val::Boolean(true)) {
            lemma_eval_keeps_ancestors(c.state, body, fuel);
            let b = eval(c.state, body, fuel);
            if b.result is Ok {
                lemma_while_keeps_ancestors(b.state, condition, body, (fuel - 1) as nat);
            }
        }
    }
}

/// A `for` loop changes the innermost frame only.
pub proof fn lemma_for_keeps_ancestors(
    st: State,
    condition: Ast,
    body: Ast,
    updater: Ast,
    fuel: nat,
)
    requires
        st.env.len() >= 1,
    ensures
        eval_for(st, condition, body, updater, fuel).result is Ok ==> same_ancestors(
            eval_for(st, condition, body, updater, fuel).state.env,
            st.env,
        ),
    decreases fuel, 1int,
{
    if fuel > 0 {
        lemma_eval_keeps_ancestors(st, condition, fuel);
        let c = eval(st, condition, fuel);
        if c.result == Ok::<Val, Seq<char>>(Val::Boolean(true)) {
            lemma_eval_keeps_ancestors(c.state, body, fuel);
            let b = eval(c.state, body, fuel);
            if b.result is Ok {
                lemma_eval_keeps_ancestors(b.state, updater, fuel);
                let u = eval(b.state, updater, fuel);
                if u.result is Ok {
                    lemma_for_keeps_ancestors(u.state, condition, body, updater, (fuel - 1) as nat);
                }
            }
        }
    }
}

/// A run that succeeds leaves the environment as the definitions of the
/// program left it: what `main` bound is gone with its frame.
pub proof fn lemma_run_leaves_no_trace(st: State, program: Ast, fuel: nat)
    requires
        st.env.len() >= 1,
    ensures
        run(st, program, fuel).result is Ok ==> run(st, program, fuel).state.env == eval(
            st,
            program,
            fuel,
        ).state.env,
{
    let defined = eval(st, program, fuel).state;
    lemma_env_is_never_empty(st, program, fuel);
    match lookup(defined.env, "main"@) {
        Some(Val::Function(_, params, body)) => {
            if params.len() == 0 {
                let entry = State { env: push_frame(defined.env), console: defined.console };
                lemma_push_then_drop(defined.env);
                lemma_eval_keeps_ancestors(entry, body, fuel);
            }
        },
        _ => {},
    }
}

/// No evaluation, whether it succeeds or fails, leaves the environment
/// with fewer frames than it found.
pub proof fn lemma_env_is_never_empty(st: State, node: Ast, fuel: nat)
    requires
        st.env.len() >= 1,
    ensures
        eval(st, node, fuel).state.env.len() >= st.env.len(),
    decreases fuel, 0int,
{
    if fuel > 0 {
        let f = (fuel - 1) as nat;
        match node {
            Ast::Program(defs) => {
                lemma_frames_stay_in_program(st, defs, 0, Val::Integer(0), f);
            },
            Ast::Expression(e) => {
                lemma_env_is_never_empty(st, *e, f);
            },
            Ast::Term(e) => {
                lemma_env_is_never_empty(st, *e, f);
            },
            Ast::FuncReturn(e) => {
                lemma_env_is_never_empty(st, *e, f);
            },
            Ast::BinaryExpression { lhs, op, rhs } => {
                lemma_env_is_never_empty(st, *lhs, f);
                lemma_env_is_never_empty(eval(st, *lhs, f).state, *rhs, f);
            },
            Ast::UnaryExpression { op, child } => {
                lemma_env_is_never_empty(st, *child, f);
            },
            Ast::Block(stmts) => {
                lemma_frames_stay_in_block(st, stmts, 0, f);
            },
            Ast::VarDecl { name, value } => {
                match value {
                    Some(e) => {
                        lemma_env_is_never_empty(st, *e, f);
                    },
                    None => {},
                }
            },
            Ast::VarSet { name, value } => {
                lemma_env_is_never_empty(st, *value, f);
            },
            Ast::FuncCall { name, args } => {
                match lookup(st.env, name) {
                    Some(Val::Function(_, params, body)) => {
                        let n = bound_count(params, arguments(*args));
                        lemma_frames_stay_in_args(st, arguments(*args), 0, n, Seq::empty(), f);
                        let a = eval_args(st, arguments(*args), 0, n, Seq::empty(), f);
                        match a.result {
                            Ok(values) => {
                                let pushed = push_frame(a.state.env);
                                lemma_bind_all_keeps_ancestors(pushed, params, values, n);
                                let entry = State {
                                    env: bind_all(pushed, params, values, n),
                                    console: a.state.console,
                                };
                                lemma_env_is_never_empty(entry, body, f);
                            },
                            Err(_) => {},
                        }
                    },
                    Some(Val::BuiltinFunction(func)) => {
                        let items = arguments(*args);
                        lemma_frames_stay_in_args(st, items, 0, items.len() as int, Seq::empty(), f);
                    },
                    _ => {},
                }
            },
            Ast::IfStatement { condition, body } => {
                lemma_env_is_never_empty(st, *condition, f);
                lemma_env_is_never_empty(eval(st, *condition, f).state, *body, f);
            },
            Ast::WhileLoop { condition, body } => {
                lemma_frames_stay_in_while(st, *condition, *body, f);
            },
            Ast::ForLoop { params, body } => {
                match *params {
                    Ast::ForLoopParams { initialization, condition, updater } => {
                        lemma_env_is_never_empty(st, *initialization, f);
                        lemma_frames_stay_in_for(
                            eval(st, *initialization, f).state,
                            *condition,
                            *body,
                            *updater,
                            f,
                        );
                    },
                    _ => {},
                }
            },
            _ => {},
        }
    }
}

/// No program leaves the environment with fewer frames than it found.
pub proof fn lemma_frames_stay_in_program(st: State, defs: Seq<Ast>, i: int, last: Val, fuel: nat)
    requires
        st.env.len() >= 1,
    ensures
        eval_program(st, defs, i, last, fuel).state.env.len() >= st.env.len(),
    decreases fuel, defs.len() - i,
{
    if 0 <= i < defs.len() {
        lemma_env_is_never_empty(st, defs[i], fuel);
        let o = eval(st, defs[i], fuel);
        if o.result is Ok {
            lemma_frames_stay_in_program(o.state, defs, i + 1, o.result->Ok_0, fuel);
        }
    }
}

/// No block leaves the environment with fewer frames than it found.
pub proof fn lemma_frames_stay_in_block(st: State, stmts: Seq<Ast>, i: int, fuel: nat)
    requires
        st.env.len() >= 1,
    ensures
        eval_block(st, stmts, i, fuel).state.env.len() >= st.env.len(),
    decreases fuel, stmts.len() - i,
{
    if 0 <= i < stmts.len() {
        lemma_env_is_never_empty(st, stmts[i], fuel);
        let o = eval(st, stmts[i], fuel);
        if o.result is Ok && (o.result->Ok_0).is_zero() {
            lemma_frames_stay_in_block(o.state, stmts, i + 1, fuel);
        }
    }
}

/// No list of arguments leaves the environment with fewer frames than it
/// found.
pub proof fn lemma_frames_stay_in_args(
    st: State,
    args: Seq<Ast>,
    i: int,
    n: int,
    acc: Seq<Val>,
    fuel: nat,
)
    requires
        st.env.len() >= 1,
    ensures
        eval_args(st, args, i, n, acc, fuel).state.env.len() >= st.env.len(),
    decreases fuel, n - i,
{
    if 0 <= i < n && i < args.len() {
        lemma_env_is_never_empty(st, args[i], fuel);
        let o = eval(st, args[i], fuel);
        if o.result is Ok {
            lemma_frames_stay_in_args(o.state, args, i + 1, n, acc.push(o.result->Ok_0), fuel);
        }
    }
}

/// No `while` loop leaves the environment with fewer frames than it found.
pub proof fn lemma_frames_stay_in_while(st: State, condition: Ast, body: Ast, fuel: nat)
    requires
        st.env.len() >= 1,
    ensures
        eval_while(st, condition, body, fuel).state.env.len() >= st.env.len(),
    decreases fuel, 1int,
{
    if fuel > 0 {
        lemma_env_is_never_empty(st, condition, fuel);
        let c = eval(st, condition, fuel);
        if c.result == Ok::<Val, Seq<char>>(Val::Boolean(true)) {
            lemma_env_is_never_empty(c.state, body, fuel);
            let b = eval(c.state, body, fuel);
            if b.result is Ok {
                lemma_frames_stay_in_while(b.state, condition, body, (fuel - 1) as nat);
            }
        }
    }
}

/// No `for` loop leaves the environment with fewer frames than it found.
pub proof fn lemma_frames_stay_in_for(
    st: State,
    condition: Ast,
    body: Ast,
    updater: Ast,
    fuel: nat,
)
    requires
        st.env.len() >= 1,
    ensures
        eval_for(st, condition, body, updater, fuel).state.env.len() >= st.env.len(),
    decreases fuel, 1int,
{
    if fuel > 0 {
        lemma_env_is_never_empty(st, condition, fuel);
        let c = eval(st, condition, fuel);
        if c.result == Ok::<Val, Seq<char>>(Val::Boolean(true)) {
            lemma_env_is_never_empty(c.state, body, fuel);
            let b = eval(c.state, body, fuel);
            if b.result is Ok {
                lemma_env_is_never_empty(b.state, updater, fuel);
                let u = eval(b.state, updater, fuel);
                if u.result is Ok {
                    lemma_frames_stay_in_for(u.state, condition, body, updater, (fuel - 1) as nat);
                }
            }
        }
    }
}

/// An expression that is evaluated leaves every binding as it was: whatever
/// the functions it calls bind, in their own frame or under a name of the
/// caller, is gone when they return.
pub proof fn lemma_expression_keeps_env(st: State, node: Ast, fuel: nat)
    requires
        st.env.len() >= 1,
        is_expression(node),
    ensures
        eval(st, node, fuel).result is Ok ==> eval(st, node, fuel).state.env == st.env,
    decreases fuel, 0int,
{
    if fuel > 0 {
        let f = (fuel - 1) as nat;
        match node {
            Ast::Expression(e) => {
                lemma_expression_keeps_env(st, *e, f);
            },
            Ast::Term(e) => {
                lemma_expression_keeps_env(st, *e, f);
            },
            Ast::UnaryExpression { op, child } => {
                lemma_expression_keeps_env(st, *child, f);
            },
            Ast::BinaryExpression { lhs, op, rhs } => {
                lemma_expression_keeps_env(st, *lhs, f);
                let l = eval(st, *lhs, f);
                if l.result is Ok {
                    lemma_expression_keeps_env(l.state, *rhs, f);
                }
            },
            Ast::FuncCall { name, args } => {
                match lookup(st.env, name) {
                    Some(Val::Function(_, params, body)) => {
                        let n = bound_count(params, arguments(*args));
                        lemma_arguments_keep_env(st, arguments(*args), 0, n, Seq::empty(), f);
                    },
                    Some(Val::BuiltinFunction(func)) => {
                        let items = arguments(*args);
                        lemma_arguments_keep_env(st, items, 0, items.len() as int, Seq::empty(), f);
                    },
                    _ => {},
                }
            },
            _ => {},
        }
    }
}

/// Arguments that are expressions leave every binding as it was.
pub proof fn lemma_arguments_keep_env(
    st: State,
    args: Seq<Ast>,
    i: int,
    n: int,
    acc: Seq<Val>,
    fuel: nat,
)
    requires
        st.env.len() >= 1,
        all_expressions(args),
    ensures
        eval_args(st, args, i, n, acc, fuel).result is Ok ==> eval_args(
            st,
            args,
            i,
            n,
            acc,
            fuel,
        ).state.env == st.env,
    decreases fuel, n - i,
{
    if 0 <= i < n && i < args.len() {
        lemma_expression_keeps_env(st, args[i], fuel);
        let o = eval(st, args[i], fuel);
        if o.result is Ok {
            lemma_arguments_keep_env(o.state, args, i + 1, n, acc.push(o.result->Ok_0), fuel);
        }
    }
}

/// Nothing that the body of a function binds escapes the call: after a call
/// that returns, the environment is the one in which the arguments left the
/// caller, whatever the body did to the names of its own frame or to those
/// it found in the caller's.
pub proof fn lemma_body_leaves_no_trace(st: State, name: Seq<char>, args: Ast, fuel: nat)
    requires
        fuel > 0,
        lookup(st.env, name) matches Some(v) && v is Function,
    ensures
        ({
            let call = Ast::FuncCall { name, args: Box::new(args) };
            let params = lookup(st.env, name)->0->Function_1;
            let arrived = eval_args(
                st,
                arguments(args),
                0,
                bound_count(params, arguments(args)),
                Seq::empty(),
                (fuel - 1) as nat,
            );
            eval(st, call, fuel).result is Ok ==> eval(st, call, fuel).state.env
                == arrived.state.env
        }),
{
}

/// A call that returns leaves the whole environment as it was: the same
/// frames, and every name bound as before. What the function set, also under
/// a name that a frame of the caller binds, went into its own frame and is
/// gone with it.
pub proof fn lemma_call_restores_env(st: State, name: Seq<char>, args: Ast, fuel: nat)
    requires
        st.env.len() >= 1,
        (Ast::FuncCall { name, args: Box::new(args) }).evaluable(),
    ensures
        ({
            let call = Ast::FuncCall { name, args: Box::new(args) };
            eval(st, call, fuel).result is Ok ==> eval(st, call, fuel).state.env == st.env
        }),
{
    let call = Ast::FuncCall { name, args: Box::new(args) };
    assert(is_expression(call));
    lemma_expression_keeps_env(st, call, fuel);
}

/// No write of a function escapes it: after a call that returns, a name
/// evaluates to what it evaluated to before the call.
pub proof fn lemma_caller_keeps_its_values(
    st: State,
    name: Seq<char>,
    args: Ast,
    x: Seq<char>,
    fuel: nat,
    later: nat,
)
    requires
        st.env.len() >= 1,
        (Ast::FuncCall { name, args: Box::new(args) }).evaluable(),
    ensures
        ({
            let call = Ast::FuncCall { name, args: Box::new(args) };
            eval(st, call, fuel).result is Ok ==> eval(
                eval(st, call, fuel).state,
                Ast::Identifier(x),
                later,
            ).result == eval(st, Ast::Identifier(x), later).result
        }),
{
    lemma_call_restores_env(st, name, args, fuel);
}

/// The body of an `if` runs in the frame of the `if`: where the condition
/// is true, the outcome of the statement is the outcome of its body in the
/// state that the condition left.
pub proof fn lemma_if_runs_in_place(st: State, condition: Ast, body: Ast, fuel: nat)
    requires
        fuel > 0,
        eval(st, condition, (fuel - 1) as nat).result == Ok::<Val, Seq<char>>(Val::Boolean(true)),
    ensures
        ({
            let node = Ast::IfStatement { condition: Box::new(condition), body: Box::new(body) };
            eval(st, node, fuel) == eval(
                eval(st, condition, (fuel - 1) as nat).state,
                body,
                (fuel - 1) as nat,
            )
        }),
{
}

/// A name that the body of an `if` binds is bound after the `if`.
pub proof fn lemma_if_binding_stays(
    st: State,
    condition: Ast,
    body: Ast,
    x: Seq<char>,
    fuel: nat,
)
    requires
        fuel > 0,
        eval(st, condition, (fuel - 1) as nat).result == Ok::<Val, Seq<char>>(Val::Boolean(true)),
    ensures
        ({
            let node = Ast::IfStatement { condition: Box::new(condition), body: Box::new(body) };
            let after_body = eval(
                eval(st, condition, (fuel - 1) as nat).state,
                body,
                (fuel - 1) as nat,
            ).state;
            lookup(eval(st, node, fuel).state.env, x) == lookup(after_body.env, x)
        }),
{
    lemma_if_runs_in_place(st, condition, body, fuel);
}

/// The body of a `while` loop runs in the frame of the loop: after a turn
/// whose body succeeded, the loop goes on in the state that the body left.
pub proof fn lemma_while_runs_in_place(st: State, condition: Ast, body: Ast, fuel: nat)
    requires
        fuel > 0,
        eval(st, condition, fuel).result == Ok::<Val, Seq<char>>(Val::Boolean(true)),
        eval(eval(st, condition, fuel).state, body, fuel).result is Ok,
    ensures
        eval_while(st, condition, body, fuel) == eval_while(
            eval(eval(st, condition, fuel).state, body, fuel).state,
            condition,
            body,
            (fuel - 1) as nat,
        ),
{
}

/// A `while` loop ends in the state in which its condition was false, and
/// its result is the integer 0, whatever its body returned.
pub proof fn lemma_while_ends(st: State, condition: Ast, body: Ast, fuel: nat)
    requires
        fuel > 0,
        eval(st, condition, fuel).result == Ok::<Val, Seq<char>>(Val::Boolean(false)),
    ensures
        eval_while(st, condition, body, fuel) == done(
            eval(st, condition, fuel).state,
            Val::Integer(0),
        ),
{
}

/// The body of a `for` loop and the last statement of its header run in the
/// frame of the loop: after a turn in which both succeeded, the loop goes on
/// in the state that they left.
pub proof fn lemma_for_runs_in_place(
    st: State,
    condition: Ast,
    body: Ast,
    updater: Ast,
    fuel: nat,
)
    requires
        fuel > 0,
        eval(st, condition, fuel).result == Ok::<Val, Seq<char>>(Val::Boolean(true)),
        eval(eval(st, condition, fuel).state, body, fuel).result is Ok,
        eval(eval(eval(st, condition, fuel).state, body, fuel).state, updater, fuel).result is Ok,
    ensures
        eval_for(st, condition, body, updater, fuel) == eval_for(
            eval(eval(eval(st, condition, fuel).state, body, fuel).state, updater, fuel).state,
            condition,
            body,
            updater,
            (fuel - 1) as nat,
        ),
{
}

/// The state in which statement `k` of a block starts: the one that the
/// statements before it left, where each of them returned the integer 0.
/// Where one of them did not, statement `k` is never reached.
pub open spec fn state_before(st: State, stmts: Seq<Ast>, k: int, fuel: nat) -> Option<State>
    decreases k,
{
    if k <= 0 {
        Some(st)
    } else {
        match state_before(st, stmts, k - 1, fuel) {
            Some(s) => {
                let o = eval(s, stmts[k - 1], fuel);
                if o.result == Ok::<Val, Seq<char>>(Val::Integer(0)) {
                    Some(o.state)
                } else {
                    None
                }
            },
            None => None,
        }
    }
}

/// A block that reaches statement `k` from statement `i` goes on from there
/// as if it had started there.
pub proof fn lemma_block_reaches(st: State, stmts: Seq<Ast>, i: int, k: int, fuel: nat)
    requires
        0 <= i <= k <= stmts.len(),
        state_before(st, stmts, k, fuel) is Some,
    ensures
        state_before(st, stmts, i, fuel) is Some,
        eval_block(state_before(st, stmts, i, fuel)->0, stmts, i, fuel) == eval_block(
            state_before(st, stmts, k, fuel)->0,
            stmts,
            k,
            fuel,
        ),
    decreases k - i,
{
    if i < k {
        lemma_block_reaches(st, stmts, i + 1, k, fuel);
    }
}

/// The first statement of a block whose result is not the integer 0 ends
/// the block: the block's outcome is that statement's, state and all, so no
/// statement after it is evaluated. `limit` is the bound of the evaluator,
/// which is at least 1.
pub proof fn lemma_block_short_circuit(st: State, stmts: Seq<Ast>, k: int, limit: nat)
    requires
        limit >= 1,
        0 <= k < stmts.len(),
        state_before(st, stmts, k, (limit - 1) as nat) is Some,
        eval(
            state_before(st, stmts, k, (limit - 1) as nat)->0,
            stmts[k],
            (limit - 1) as nat,
        ).result != Ok::<Val, Seq<char>>(Val::Integer(0)),
    ensures
        eval(st, Ast::Block(stmts), limit) == eval(
            state_before(st, stmts, k, (limit - 1) as nat)->0,
            stmts[k],
            (limit - 1) as nat,
        ),
{
    lemma_block_reaches(st, stmts, 0, k, (limit - 1) as nat);
}

/// A block in which every statement results in the integer 0, and the
/// empty block, result in the integer 0, in the state that the last
/// statement left: every statement was evaluated, once and in order.
pub proof fn lemma_block_runs_through(st: State, stmts: Seq<Ast>, limit: nat)
    requires
        limit >= 1,
        state_before(st, stmts, stmts.len() as int, (limit - 1) as nat) is Some,
    ensures
        eval(st, Ast::Block(stmts), limit) == done(
            state_before(st, stmts, stmts.len() as int, (limit - 1) as nat)->0,
            Val::Integer(0),
        ),
{
    lemma_block_reaches(st, stmts, 0, stmts.len() as int, (limit - 1) as nat);
}

/// What stands behind the statement that ends a block is of no matter: two
/// blocks that are the same up to that statement have the same outcome.
pub proof fn lemma_block_ignores_the_rest(
    st: State,
    stmts: Seq<Ast>,
    other: Seq<Ast>,
    k: int,
    limit: nat,
)
    requires
        limit >= 1,
        0 <= k < stmts.len(),
        k < other.len(),
        forall|i: int| 0 <= i <= k ==> stmts[i] == other[i],
        state_before(st, stmts, k, (limit - 1) as nat) is Some,
        eval(
            state_before(st, stmts, k, (limit - 1) as nat)->0,
            stmts[k],
            (limit - 1) as nat,
        ).result != Ok::<Val, Seq<char>>(Val::Integer(0)),
    ensures
        eval(st, Ast::Block(stmts), limit) == eval(st, Ast::Block(other), limit),
{
    lemma_same_start(st, stmts, other, k, (limit - 1) as nat);
    lemma_block_short_circuit(st, stmts, k, limit);
    lemma_block_short_circuit(st, other, k, limit);
}

/// Two blocks that start with the same statements reach the last of them
/// in the same state.
pub proof fn lemma_same_start(st: State, stmts: Seq<Ast>, other: Seq<Ast>, k: int, fuel: nat)
    requires
        0 <= k <= stmts.len(),
        k <= other.len(),
        forall|i: int| 0 <= i < k ==> stmts[i] == other[i],
    ensures
        state_before(st, stmts, k, fuel) == state_before(st, other, k, fuel),
    decreases k,
{
    if k > 0 {
        lemma_same_start(st, stmts, other, k - 1, fuel);
    }
}

/// Whether an outcome is the error of an evaluation that reached its bound.
pub open spec fn out_of_fuel(result: Result<Val, Seq<char>>) -> bool {
    result == Err::<Val, Seq<char>>(limit_exceeded())
}

/// The bound changes no evaluation that stays under it: an outcome that is
/// not the error of the bound is the outcome under every larger bound.
pub proof fn lemma_bound_is_no_matter(st: State, node: Ast, fuel: nat)
    ensures
        !out_of_fuel(eval(st, node, fuel).result) ==> eval(st, node, fuel + 1) == eval(
            st,
            node,
            fuel,
        ),
    decreases fuel, 0int,
{
    if fuel > 0 {
        let f = (fuel - 1) as nat;
        match node {
            Ast::Program(defs) => {
                lemma_bound_in_program(st, defs, 0, Val::Integer(0), f);
            },
            Ast::Expression(e) => {
                lemma_bound_is_no_matter(st, *e, f);
            },
            Ast::Term(e) => {
                lemma_bound_is_no_matter(st, *e, f);
            },
            Ast::FuncReturn(e) => {
                lemma_bound_is_no_matter(st, *e, f);
            },
            Ast::BinaryExpression { lhs, op, rhs } => {
                lemma_bound_is_no_matter(st, *lhs, f);
                lemma_bound_is_no_matter(eval(st, *lhs, f).state, *rhs, f);
            },
            Ast::UnaryExpression { op, child } => {
                lemma_bound_is_no_matter(st, *child, f);
            },
            Ast::Block(stmts) => {
                lemma_bound_in_block(st, stmts, 0, f);
            },
            Ast::VarDecl { name, value } => {
                match value {
                    Some(e) => {
                        lemma_bound_is_no_matter(st, *e, f);
                    },
                    None => {},
                }
            },
            Ast::VarSet { name, value } => {
                lemma_bound_is_no_matter(st, *value, f);
            },
            Ast::FuncCall { name, args } => {
                match lookup(st.env, name) {
                    Some(Val::Function(_, params, body)) => {
                        let n = bound_count(params, arguments(*args));
                        lemma_bound_in_args(st, arguments(*args), 0, n, Seq::empty(), f);
                        let a = eval_args(st, arguments(*args), 0, n, Seq::empty(), f);
                        match a.result {
                            Ok(values) => {
                                let entry = State {
                                    env: bind_all(push_frame(a.state.env), params, values, n),
                                    console: a.state.console,
                                };
                                lemma_bound_is_no_matter(entry, body, f);
                            },
                            Err(_) => {},
                        }
                    },
                    Some(Val::BuiltinFunction(func)) => {
                        let items = arguments(*args);
                        lemma_bound_in_args(st, items, 0, items.len() as int, Seq::empty(), f);
                    },
                    _ => {},
                }
            },
            Ast::IfStatement { condition, body } => {
                lemma_bound_is_no_matter(st, *condition, f);
                lemma_bound_is_no_matter(eval(st, *condition, f).state, *body, f);
            },
            Ast::WhileLoop { condition, body } => {
                lemma_bound_in_while(st, *condition, *body, f);
            },
            Ast::ForLoop { params, body } => {
                match *params {
                    Ast::ForLoopParams { initialization, condition, updater } => {
                        lemma_bound_is_no_matter(st, *initialization, f);
                        lemma_bound_in_for(
                            eval(st, *initialization, f).state,
                            *condition,
                            *body,
                            *updater,
                            f,
                        );
                    },
                    _ => {},
                }
            },
            _ => {},
        }
    }
}

/// The bound changes no program that stays under it.
pub proof fn lemma_bound_in_program(st: State, defs: Seq<Ast>, i: int, last: Val, fuel: nat)
    ensures
        !out_of_fuel(eval_program(st, defs, i, last, fuel).result) ==> eval_program(
            st,
            defs,
            i,
            last,
            fuel + 1,
        ) == eval_program(st, defs, i, last, fuel),
    decreases fuel, defs.len() - i,
{
    if 0 <= i < defs.len() {
        lemma_bound_is_no_matter(st, defs[i], fuel);
        let o = eval(st, defs[i], fuel);
        if o.result is Ok {
            lemma_bound_in_program(o.state, defs, i + 1, o.result->Ok_0, fuel);
        }
    }
}

/// The bound changes no block that stays under it.
pub proof fn lemma_bound_in_block(st: State, stmts: Seq<Ast>, i: int, fuel: nat)
    ensures
        !out_of_fuel(eval_block(st, stmts, i, fuel).result) ==> eval_block(st, stmts, i, fuel + 1)
            == eval_block(st, stmts, i, fuel),
    decreases fuel, stmts.len() - i,
{
    if 0 <= i < stmts.len() {
        lemma_bound_is_no_matter(st, stmts[i], fuel);
        let o = eval(st, stmts[i], fuel);
        if o.result is Ok && (o.result->Ok_0).is_zero() {
            lemma_bound_in_block(o.state, stmts, i + 1, fuel);
        }
    }
}

/// The bound changes no list of arguments that stays under it.
pub proof fn lemma_bound_in_args(
    st: State,
    args: Seq<Ast>,
    i: int,
    n: int,
    acc: Seq<Val>,
    fuel: nat,
)
    ensures
        !out_of_fuel_args(eval_args(st, args, i, n, acc, fuel).result) ==> eval_args(
            st,
            args,
            i,
            n,
            acc,
            fuel + 1,
        ) == eval_args(st, args, i, n, acc, fuel),
    decreases fuel, n - i,
{
    if 0 <= i < n && i < args.len() {
        lemma_bound_is_no_matter(st, args[i], fuel);
        let o = eval(st, args[i], fuel);
        if o.result is Ok {
            lemma_bound_in_args(o.state, args, i + 1, n, acc.push(o.result->Ok_0), fuel);
        }
    }
}

/// Whether the outcome of a list of arguments is the error of an evaluation
/// that reached its bound.
pub open spec fn out_of_fuel_args(result: Result<Seq<Val>, Seq<char>>) -> bool {
    result == Err::<Seq<Val>, Seq<char>>(limit_exceeded())
}

/// The bound changes no `while` loop that stays under it.
pub proof fn lemma_bound_in_while(st: State, condition: Ast, body: Ast, fuel: nat)
    ensures
        !out_of_fuel(eval_while(st, condition, body, fuel).result) ==> eval_while(
            st,
            condition,
            body,
            fuel + 1,
        ) == eval_while(st, condition, body, fuel),
    decreases fuel, 1int,
{
    if fuel > 0 {
        lemma_bound_is_no_matter(st, condition, fuel);
        let c = eval(st, condition, fuel);
        if c.result == Ok::<Val, Seq<char>>(Val::Boolean(true)) {
            lemma_bound_is_no_matter(c.state, body, fuel);
            let b = eval(c.state, body, fuel);
            if b.result is Ok {
                lemma_bound_in_while(b.state, condition, body, (fuel - 1) as nat);
            }
        }
    }
}

/// The bound changes no `for` loop that stays under it.
pub proof fn lemma_bound_in_for(st: State, condition: Ast, body: Ast, updater: Ast, fuel: nat)
    ensures
        !out_of_fuel(eval_for(st, condition, body, updater, fuel).result) ==> eval_for(
            st,
            condition,
            body,
            updater,
            fuel + 1,
        ) == eval_for(st, condition, body, updater, fuel),
    decreases fuel, 1int,
{
    if fuel > 0 {
        lemma_bound_is_no_matter(st, condition, fuel);
        let c = eval(st, condition, fuel);
        if c.result == Ok::<Val, Seq<char>>(Val::Boolean(true)) {
            lemma_bound_is_no_matter(c.state, body, fuel);
            let b = eval(c.state, body, fuel);
            if b.result is Ok {
                lemma_bound_is_no_matter(b.state, updater, fuel);
                let u = eval(b.state, updater, fuel);
                if u.result is Ok {
                    lemma_bound_in_for(u.state, condition, body, updater, (fuel - 1) as nat);
                }
            }
        }
    }
}

/// An outcome that is not the error of the bound is the outcome under
/// every larger bound.
pub proof fn lemma_larger_bound(st: State, node: Ast, fuel: nat, more: nat)
    requires
        fuel <= more,
        !out_of_fuel(eval(st, node, fuel).result),
    ensures
        eval(st, node, more) == eval(st, node, fuel),
    decreases more - fuel,
{
    if fuel < more {
        lemma_bound_is_no_matter(st, node, fuel);
        lemma_larger_bound(st, node, fuel + 1, more);
    }
}

} // verus!
