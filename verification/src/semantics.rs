//! What evaluation means: the outcome of every node in every state.
//!
//! The meaning is a function. Its last argument bounds the height of the
//! evaluation: a node is evaluated with one unit less than its parent, and
//! each turn of a loop with one unit less than the turn before. Where the
//! bound is reached, the outcome is an error.

use crate::ast::{Ast, BinaryOperator, UnaryOperator};
use crate::builtins::{call_builtin, ConsoleView};
use crate::environment::{bind, bind_all, lookup, push_frame, Frame};
use crate::value::Val;
use vstd::prelude::*;

verus! {

/// All that evaluation reads and changes.
pub struct State {
    /// The frames of the environment, the innermost first.
    pub env: Seq<Frame>,
    /// The console.
    pub console: ConsoleView,
}

/// The state after an evaluation, and its value or its error.
pub struct Outcome {
    pub state: State,
    pub result: Result<Val, Seq<char>>,
}

/// The state after the evaluation of a list of arguments, and their values
/// or the error of the first that failed.
pub struct ArgsOutcome {
    pub state: State,
    pub result: Result<Seq<Val>, Seq<char>>,
}

/// The outcome that is `v` in `state`.
pub open spec fn done(state: State, v: Val) -> Outcome {
    Outcome { state, result: Ok(v) }
}

/// The outcome that is the error `message` in `state`.
pub open spec fn fail(state: State, message: Seq<char>) -> Outcome {
    Outcome { state, result: Err(message) }
}

impl State {
    /// This state with `name` bound to `v` in the innermost frame.
    pub open spec fn with_binding(self, name: Seq<char>, v: Val) -> State {
        State { env: bind(self.env, name, v), ..self }
    }
}

/// The error of an evaluation that reached its bound.
pub open spec fn limit_exceeded() -> Seq<char> {
    "Evaluation limit exceeded"@
}

/// The error of a node that stands where a statement or an expression is
/// expected and is neither. No evaluable tree holds one.
pub open spec fn not_evaluable() -> Seq<char> {
    "Node cannot be evaluated"@
}

/// The error of a function definition whose parameters are no parameter
/// list.
pub open spec fn invalid_function_definition() -> Seq<char> {
    "Invalid function definition"@
}

/// The error of a `for` loop whose header is no header.
pub open spec fn invalid_for_parameters() -> Seq<char> {
    "Invalid for loop parameters"@
}

/// The error of a binary operator on operands that are not two integers.
pub open spec fn invalid_binary_operands() -> Seq<char> {
    "Invalid operands for binary expression"@
}

/// The error of `-` on what is no integer and of `!` on what is no boolean.
pub open spec fn invalid_unary_operand() -> Seq<char> {
    "Invalid operand for unary expression"@
}

/// The error of a division by 0.
pub open spec fn division_by_zero() -> Seq<char> {
    "Division by zero"@
}

/// The error of an arithmetic result that 32 bits cannot hold.
pub open spec fn integer_overflow() -> Seq<char> {
    "Integer overflow"@
}

/// The error of an `if`, a `while` or a `for` whose condition is no boolean.
pub open spec fn condition_not_boolean() -> Seq<char> {
    "Condition is not a boolean"@
}

/// The error of a name that no frame binds.
pub open spec fn undefined_variable(name: Seq<char>) -> Seq<char> {
    "Undefined variable "@ + name
}

/// The error of a call of a name that is bound to no function.
pub open spec fn function_not_found(name: Seq<char>) -> Seq<char> {
    "Function '"@ + name + "' not found"@
}

/// The error of a run without a function `main`.
pub open spec fn no_entry_function() -> Seq<char> {
    "No main() function defined"@
}

/// The error of a run whose `main` takes parameters.
pub open spec fn entry_has_parameters() -> Seq<char> {
    "main() function should not have parameters"@
}

/// The quotient of `l` by `r`, rounded towards zero.
pub open spec fn truncated_quotient(l: int, r: int) -> int
    recommends
        r != 0,
{
    if l >= 0 && r > 0 {
        l / r
    } else if l < 0 && r < 0 {
        (-l) / (-r)
    } else if l < 0 {
        -((-l) / r)
    } else {
        -(l / (-r))
    }
}

/// The integer `v` as a value, or an error where 32 bits cannot hold it.
pub open spec fn integer(v: int) -> Result<Val, Seq<char>> {
    if i32::MIN <= v <= i32::MAX {
        Ok(Val::Integer(v as i32))
    } else {
        Err(integer_overflow())
    }
}

/// What a binary operator makes of two values.
pub open spec fn binary_result(op: BinaryOperator, l: Val, r: Val) -> Result<Val, Seq<char>> {
    match (l, r) {
        (Val::Integer(a), Val::Integer(b)) => match op {
            BinaryOperator::Add => integer(a + b),
            BinaryOperator::Subtract => integer(a - b),
            BinaryOperator::Multiply => integer(a * b),
            BinaryOperator::Divide => if b == 0 {
                Err(division_by_zero())
            } else {
                integer(truncated_quotient(a as int, b as int))
            },
            BinaryOperator::Greater => Ok(Val::Boolean(a > b)),
            BinaryOperator::Less => Ok(Val::Boolean(a < b)),
            BinaryOperator::Equal => Ok(Val::Boolean(a == b)),
            BinaryOperator::NotEqual => Ok(Val::Boolean(a != b)),
            BinaryOperator::GreaterEq => Ok(Val::Boolean(a >= b)),
            BinaryOperator::LessEq => Ok(Val::Boolean(a <= b)),
        },
        _ => Err(invalid_binary_operands()),
    }
}

/// What a unary operator makes of a value.
pub open spec fn unary_result(op: UnaryOperator, v: Val) -> Result<Val, Seq<char>> {
    match (op, v) {
        (UnaryOperator::Minus, Val::Integer(a)) => integer(-a),
        (UnaryOperator::Not, Val::Boolean(b)) => Ok(Val::Boolean(!b)),
        _ => Err(invalid_unary_operand()),
    }
}

/// The argument expressions that a call holds.
pub open spec fn arguments(args: Ast) -> Seq<Ast>
    recommends
        args is ArgList,
{
    match args {
        Ast::ArgList(items) => items,
        _ => Seq::empty(),
    }
}

/// How many arguments of a call are bound: as many as there are parameters
/// and arguments both.
pub open spec fn bound_count(params: Seq<Seq<char>>, args: Seq<Ast>) -> int {
    if params.len() <= args.len() {
        params.len() as int
    } else {
        args.len() as int
    }
}

/// The outcome of `node` in `st`, where the evaluation is at most `fuel`
/// high.
pub open spec fn eval(st: State, node: Ast, fuel: nat) -> Outcome
    decreases fuel, 0int,
{
    if fuel == 0 {
        fail(st, limit_exceeded())
    } else {
        let f = (fuel - 1) as nat;
        match node {
            Ast::Program(defs) => eval_program(st, defs, 0, Val::Integer(0), f),
            Ast::FuncDef { name, args, body } => match *args {
                Ast::DefArgList(params) => done(
                    st.with_binding(name, Val::Function(name, params, *body)),
                    Val::Integer(0),
                ),
                _ => fail(st, invalid_function_definition()),
            },
            Ast::Expression(e) => eval(st, *e, f),
            Ast::Term(e) => eval(st, *e, f),
            Ast::FuncReturn(e) => eval(st, *e, f),
            Ast::BinaryExpression { lhs, op, rhs } => {
                let l = eval(st, *lhs, f);
                match l.result {
                    Err(_) => l,
                    Ok(a) => {
                        let r = eval(l.state, *rhs, f);
                        match r.result {
                            Err(_) => r,
                            Ok(b) => Outcome { state: r.state, result: binary_result(op, a, b) },
                        }
                    },
                }
            },
            Ast::UnaryExpression { op, child } => {
                let c = eval(st, *child, f);
                match c.result {
                    Err(_) => c,
                    Ok(a) => Outcome { state: c.state, result: unary_result(op, a) },
                }
            },
            Ast::Int(i) => done(st, Val::Integer(i)),
            Ast::Boolean(b) => done(st, Val::Boolean(b)),
            Ast::Str(s) => done(st, Val::String(s)),
            Ast::Identifier(name) => match lookup(st.env, name) {
                Some(v) => done(st, v),
                None => fail(st, undefined_variable(name)),
            },
            Ast::Block(stmts) => eval_block(st, stmts, 0, f),
            Ast::VarDecl { name, value } => match value {
                Some(e) => {
                    let o = eval(st, *e, f);
                    match o.result {
                        Err(_) => o,
                        Ok(v) => done(o.state.with_binding(name, v), Val::Integer(0)),
                    }
                },
                None => done(st.with_binding(name, Val::Integer(0)), Val::Integer(0)),
            },
            Ast::VarSet { name, value } => {
                let o = eval(st, *value, f);
                match o.result {
                    Err(_) => o,
                    Ok(v) => done(o.state.with_binding(name, v), Val::Integer(0)),
                }
            },
            Ast::FuncCall { name, args } => match lookup(st.env, name) {
                Some(Val::Function(_, params, body)) => {
                    let n = bound_count(params, arguments(*args));
                    let a = eval_args(st, arguments(*args), 0, n, Seq::empty(), f);
                    match a.result {
                        Err(e) => fail(a.state, e),
                        Ok(values) => {
                            let entry = State {
                                env: bind_all(push_frame(a.state.env), params, values, n),
                                console: a.state.console,
                            };
                            let b = eval(entry, body, f);
                            match b.result {
                                Err(_) => b,
                                Ok(v) => done(
                                    State { env: a.state.env, console: b.state.console },
                                    v,
                                ),
                            }
                        },
                    }
                },
                Some(Val::BuiltinFunction(func)) => {
                    let items = arguments(*args);
                    let a = eval_args(st, items, 0, items.len() as int, Seq::empty(), f);
                    match a.result {
                        Err(e) => fail(a.state, e),
                        Ok(values) => {
                            let (console, result) = call_builtin(func, a.state.console, values);
                            Outcome { state: State { env: a.state.env, console }, result }
                        },
                    }
                },
                _ => fail(st, function_not_found(name)),
            },
            Ast::IfStatement { condition, body } => {
                let c = eval(st, *condition, f);
                match c.result {
                    Err(_) => c,
                    Ok(Val::Boolean(true)) => eval(c.state, *body, f),
                    Ok(Val::Boolean(false)) => done(c.state, Val::Integer(0)),
                    Ok(_) => fail(c.state, condition_not_boolean()),
                }
            },
            Ast::WhileLoop { condition, body } => eval_while(st, *condition, *body, f),
            Ast::ForLoop { params, body } => match *params {
                Ast::ForLoopParams { initialization, condition, updater } => {
                    let i = eval(st, *initialization, f);
                    match i.result {
                        Err(_) => i,
                        Ok(_) => eval_for(i.state, *condition, *body, *updater, f),
                    }
                },
                _ => fail(st, invalid_for_parameters()),
            },
            Ast::ForLoopParams { .. } | Ast::DefArgList(_) | Ast::ArgList(_) => fail(
                st,
                not_evaluable(),
            ),
        }
    }
}

/// The outcome of the definitions `defs[i..]`, one after the other: that of
/// the last one, or `last` where none is left.
pub open spec fn eval_program(st: State, defs: Seq<Ast>, i: int, last: Val, fuel: nat) -> Outcome
    decreases fuel, defs.len() - i,
{
    if i < 0 || i >= defs.len() {
        done(st, last)
    } else {
        let o = eval(st, defs[i], fuel);
        match o.result {
            Err(_) => o,
            Ok(v) => eval_program(o.state, defs, i + 1, v, fuel),
        }
    }
}

/// The outcome of the statements `stmts[i..]`, one after the other, up to
/// the first whose result is not the integer 0: its outcome is the
/// block's. Where there is none, the block's result is the integer 0.
pub open spec fn eval_block(st: State, stmts: Seq<Ast>, i: int, fuel: nat) -> Outcome
    decreases fuel, stmts.len() - i,
{
    if i < 0 || i >= stmts.len() {
        done(st, Val::Integer(0))
    } else {
        let o = eval(st, stmts[i], fuel);
        match o.result {
            Err(_) => o,
            Ok(v) => if v.is_zero() {
                eval_block(o.state, stmts, i + 1, fuel)
            } else {
                o
            },
        }
    }
}

/// The outcome of the arguments `args[i..n]`, one after the other: their
/// values behind `acc`, or the first error.
pub open spec fn eval_args(
    st: State,
    args: Seq<Ast>,
    i: int,
    n: int,
    acc: Seq<Val>,
    fuel: nat,
) -> ArgsOutcome
    decreases fuel, n - i,
{
    if i < 0 || i >= n || i >= args.len() {
        ArgsOutcome { state: st, result: Ok(acc) }
    } else {
        let o = eval(st, args[i], fuel);
        match o.result {
            Err(e) => ArgsOutcome { state: o.state, result: Err(e) },
            Ok(v) => eval_args(o.state, args, i + 1, n, acc.push(v), fuel),
        }
    }
}

/// The outcome of a `while` loop: the condition, then, where it is true,
/// the body and the loop again. The body's result is dropped.
pub open spec fn eval_while(st: State, condition: Ast, body: Ast, fuel: nat) -> Outcome
    decreases fuel, 1int,
{
    if fuel == 0 {
        fail(st, limit_exceeded())
    } else {
        let c = eval(st, condition, fuel);
        match c.result {
            Err(_) => c,
            Ok(Val::Boolean(true)) => {
                let b = eval(c.state, body, fuel);
                match b.result {
                    Err(_) => b,
                    Ok(_) => eval_while(b.state, condition, body, (fuel - 1) as nat),
                }
            },
            Ok(Val::Boolean(false)) => done(c.state, Val::Integer(0)),
            Ok(_) => fail(c.state, condition_not_boolean()),
        }
    }
}

/// The outcome of a `for` loop once its first statement is done: the
/// condition, then, where it is true, the body, the last statement of the
/// header and the loop again. The body's result is dropped.
pub open spec fn eval_for(st: State, condition: Ast, body: Ast, updater: Ast, fuel: nat) -> Outcome
    decreases fuel, 1int,
{
    if fuel == 0 {
        fail(st, limit_exceeded())
    } else {
        let c = eval(st, condition, fuel);
        match c.result {
            Err(_) => c,
            Ok(Val::Boolean(true)) => {
                let b = eval(c.state, body, fuel);
                match b.result {
                    Err(_) => b,
                    Ok(_) => {
                        let u = eval(b.state, updater, fuel);
                        match u.result {
                            Err(_) => u,
                            Ok(_) => eval_for(u.state, condition, body, updater, (fuel - 1) as nat),
                        }
                    },
                }
            },
            Ok(Val::Boolean(false)) => done(c.state, Val::Integer(0)),
            Ok(_) => fail(c.state, condition_not_boolean()),
        }
    }
}

/// The outcome of a run: the definitions of `program` are bound, whatever
/// that evaluation returns, and the body of `main` is evaluated in a frame of
/// its own, which is taken off again.
pub open spec fn run(st: State, program: Ast, fuel: nat) -> Outcome {
    let defined = eval(st, program, fuel).state;
    match lookup(defined.env, "main"@) {
        Some(Val::Function(_, params, body)) => if params.len() > 0 {
            fail(defined, entry_has_parameters())
        } else {
            let entry = State { env: push_frame(defined.env), console: defined.console };
            let b = eval(entry, body, fuel);
            Outcome {
                state: State { env: leave_frame(b.state.env), console: b.state.console },
                result: b.result,
            }
        },
        _ => fail(defined, no_entry_function()),
    }
}

/// `env` without its innermost frame, where it has a frame under it.
pub open spec fn leave_frame(env: Seq<Frame>) -> Seq<Frame> {
    if env.len() > 1 {
        env.drop_first()
    } else {
        env
    }
}

} // verus!
