//! The evaluator: it walks a syntax tree and does what the tree says.

use crate::ast::{
    all_evaluable, clone_names, lemma_expressions_are_evaluable, names_model, nodes_model, AstNode,
    BinaryOperator, UnaryOperator,
};
use crate::builtins::{builtin_table, result_model, BuiltinFunction, Builtins, Console, ConsoleView};
use crate::environment::{all_callable, bind, bind_all, lookup, push_frame, Frame, SymbolTable};
use crate::laws::{
    lemma_bind_all_keeps_ancestors, lemma_eval_keeps_ancestors, lemma_expression_keeps_env,
    lemma_push_then_drop,
};
use crate::semantics;
use crate::semantics::{
    arguments, binary_result, bound_count, eval_args, eval_block, eval_for, eval_program,
    eval_while, leave_frame, run, unary_result, ArgsOutcome, Outcome, State,
};
use crate::value::{values_model, Val, Value};
use vstd::pervasive::unreached;
use vstd::prelude::*;
use vstd::string::*;

verus! {

/// The environment in which a program starts: one frame, in which every
/// built-in function is bound to its name.
pub open spec fn global_frame() -> Frame {
    builtin_table().map_values(|f: BuiltinFunction| Val::BuiltinFunction(f))
}

/// The state in which a program starts: the built-in functions are bound,
/// no line waits to be read and nothing is written.
pub open spec fn initial_state() -> State {
    State {
        env: seq![global_frame()],
        console: ConsoleView { pending: Seq::empty(), output: Seq::empty(), starved: false },
    }
}

/// Evaluates `node` by itself: in the state in which a program starts, and
/// within the largest bound.
pub fn eval(node: &AstNode) -> (r: Result<Value, String>)
    requires
        node@.evaluable(),
    ensures
        result_model(r) == semantics::eval(initial_state(), node@, u64::MAX as nat).result,
{
    let mut evaluator = Evaluator::new();
    evaluator.eval(node)
}

/// A value that a name is bound to in a well-formed environment is callable.
pub proof fn lemma_lookup_callable(env: Seq<Frame>, name: Seq<char>)
    requires
        all_callable(env),
    ensures
        lookup(env, name) matches Some(v) ==> v.callable(),
    decreases env.len(),
{
    if env.len() > 0 && !env[0].contains_key(name) {
        let rest = env.drop_first();
        assert forall|i: int, k: Seq<char>|
            0 <= i < rest.len() && #[trigger] rest[i].contains_key(k) implies
                rest[i][k].callable() by {
            assert(env[i + 1].contains_key(k));
        }
        lemma_lookup_callable(rest, name);
    }
}

/// Binding a callable value keeps an environment well formed.
pub proof fn lemma_bind_callable(env: Seq<Frame>, name: Seq<char>, v: Val)
    requires
        env.len() >= 1,
        all_callable(env),
        v.callable(),
    ensures
        all_callable(bind(env, name, v)),
{
    let after = bind(env, name, v);
    assert forall|i: int, k: Seq<char>|
        0 <= i < after.len() && #[trigger] after[i].contains_key(k) implies
            after[i][k].callable() by {
        if i == 0 {
            if k != name {
                assert(env[0].contains_key(k));
            }
        } else {
            assert(env[i].contains_key(k));
        }
    }
}

/// What a binary operator makes of two values.
pub fn apply_binary(op: BinaryOperator, left: &Value, right: &Value) -> (r: Result<Value, String>)
    ensures
        result_model(r) == binary_result(op, left@, right@),
{
    match (left, right) {
        (Value::Integer(l), Value::Integer(r)) => {
            let l: i32 = *l;
            let r: i32 = *r;
            match op {
                BinaryOperator::Add => match l.checked_add(r) {
                    Some(v) => Ok(Value::Integer(v)),
                    None => Err(String::from_str("Integer overflow")),
                },
                BinaryOperator::Subtract => match l.checked_sub(r) {
                    Some(v) => Ok(Value::Integer(v)),
                    None => Err(String::from_str("Integer overflow")),
                },
                BinaryOperator::Multiply => match l.checked_mul(r) {
                    Some(v) => Ok(Value::Integer(v)),
                    None => Err(String::from_str("Integer overflow")),
                },
                BinaryOperator::Divide => if r == 0 {
                    Err(String::from_str("Division by zero"))
                } else {
                    match l.checked_div(r) {
                        Some(v) => Ok(Value::Integer(v)),
                        None => Err(String::from_str("Integer overflow")),
                    }
                },
                BinaryOperator::Greater => Ok(Value::Boolean(l > r)),
                BinaryOperator::Less => Ok(Value::Boolean(l < r)),
                BinaryOperator::Equal => Ok(Value::Boolean(l == r)),
                BinaryOperator::NotEqual => Ok(Value::Boolean(l != r)),
                BinaryOperator::GreaterEq => Ok(Value::Boolean(l >= r)),
                BinaryOperator::LessEq => Ok(Value::Boolean(l <= r)),
            }
        },
        _ => Err(String::from_str("Invalid operands for binary expression")),
    }
}

/// What a unary operator makes of a value.
pub fn apply_unary(op: UnaryOperator, value: &Value) -> (r: Result<Value, String>)
    ensures
        result_model(r) == unary_result(op, value@),
{
    match (op, value) {
        (UnaryOperator::Minus, Value::Integer(i)) => match 0i32.checked_sub(*i) {
            Some(v) => Ok(Value::Integer(v)),
            None => Err(String::from_str("Integer overflow")),
        },
        (UnaryOperator::Not, Value::Boolean(b)) => Ok(Value::Boolean(!*b)),
        _ => Err(String::from_str("Invalid operand for unary expression")),
    }
}

/// The model of the result of a list of arguments.
pub open spec fn args_model(r: Result<Vec<Value>, String>) -> Result<Seq<Val>, Seq<char>> {
    match r {
        Ok(v) => Ok(values_model(&v)),
        Err(e) => Err(e@),
    }
}

/// Whether every value of a list is callable.
pub open spec fn values_callable(v: Seq<Val>) -> bool {
    forall|i: int| 0 <= i < v.len() ==> (#[trigger] v[i]).callable()
}

/// An evaluator: an environment, a console, and a bound on the height of
/// an evaluation.
pub struct Evaluator {
    symbol_table: SymbolTable,
    builtins: Builtins,
    console: Console,
    limit: u64,
}

impl View for Evaluator {
    type V = State;

    closed spec fn view(&self) -> State {
        State { env: self.symbol_table@, console: self.console@ }
    }
}

impl Evaluator {
    /// The bound on the height of an evaluation.
    pub closed spec fn limit(&self) -> nat {
        self.limit as nat
    }

    /// The registry of built-in functions.
    pub closed spec fn registry(&self) -> Map<Seq<char>, BuiltinFunction> {
        self.builtins@
    }

    /// Whether the environment holds a frame, every function bound in it
    /// is callable, and the bound is at least 1.
    pub open spec fn wf(&self) -> bool {
        self@.env.len() >= 1 && all_callable(self@.env) && self.limit() >= 1
    }

    /// An evaluator with the built-in functions bound in its one frame, an
    /// empty console and the largest bound.
    pub fn new() -> (r: Evaluator)
        ensures
            r@ == initial_state(),
            r.limit() == u64::MAX,
            r.registry() == builtin_table(),
            r.wf(),
    {
        Evaluator::with_console(Console::new(), u64::MAX)
    }

    /// An evaluator with the built-in functions bound in its one frame, that
    /// works on `console` and evaluates at most `limit` high.
    pub fn with_console(console: Console, limit: u64) -> (r: Evaluator)
        requires
            limit >= 1,
        ensures
            r@ == (State { console: console@, ..initial_state() }),
            r.limit() == limit,
            r.registry() == builtin_table(),
            r.wf(),
    {
        let builtins = Builtins::new();
        let mut symbol_table = SymbolTable::new();
        proof {
            reveal_strlit("print");
            reveal_strlit("input");
            reveal_strlit("str");
            reveal_strlit("int");
            assert("print"@.len() == 5 && "print"@[0] == 'p');
            assert("input"@.len() == 5 && "input"@[0] == 'i');
            assert("str"@.len() == 3 && "str"@[0] == 's');
            assert("int"@.len() == 3 && "int"@[0] == 'i');
        }
        let print = builtins.get("print");
        let input = builtins.get("input");
        let str_fn = builtins.get("str");
        let int_fn = builtins.get("int");
        assert(print == Some(BuiltinFunction::Print));
        assert(input == Some(BuiltinFunction::Input));
        assert(str_fn == Some(BuiltinFunction::Str));
        assert(int_fn == Some(BuiltinFunction::Int));
        symbol_table.set(String::from_str("print"), Value::BuiltinFunction(print.unwrap()));
        symbol_table.set(String::from_str("input"), Value::BuiltinFunction(input.unwrap()));
        symbol_table.set(String::from_str("str"), Value::BuiltinFunction(str_fn.unwrap()));
        symbol_table.set(String::from_str("int"), Value::BuiltinFunction(int_fn.unwrap()));
        assert(symbol_table@[0] =~= global_frame());
        assert(symbol_table@ =~= seq![global_frame()]);
        Evaluator { symbol_table, builtins, console, limit }
    }

    /// The console.
    pub fn console(&self) -> (r: &Console)
        ensures
            r@ == self@.console,
    {
        &self.console
    }

    /// The registry from which the built-in functions were bound.
    pub fn builtins(&self) -> (r: &Builtins)
        ensures
            r@ == self.registry(),
    {
        &self.builtins
    }

    /// A copy of the value that `name` is bound to in the innermost frame
    /// that binds it.
    pub fn lookup(&self, name: &str) -> (r: Option<Value>)
        ensures
            match r {
                Some(v) => lookup(self@.env, name@) == Some(v@),
                None => lookup(self@.env, name@) is None,
            },
    {
        self.symbol_table.get(name)
    }

    /// Pushes a frame and binds in it the first `n` parameters, each to the
    /// value at its place.
    fn enter(&mut self, params: &Vec<String>, values: &Vec<Value>, n: usize)
        requires
            old(self).wf(),
            n <= params.len(),
            n <= values.len(),
            values_callable(values_model(values)),
        ensures
            final(self)@ == (State {
                env: bind_all(
                    push_frame(old(self)@.env),
                    names_model(params),
                    values_model(values),
                    n as int,
                ),
                console: old(self)@.console,
            }),
            final(self).wf(),
            final(self).limit() == old(self).limit(),
            final(self).registry() == old(self).registry(),
    {
        let mut caller = SymbolTable::new();
        core::mem::swap(&mut self.symbol_table, &mut caller);
        self.symbol_table = SymbolTable::with_parent(Box::new(caller));
        let ghost pushed = push_frame(old(self)@.env);
        assert(all_callable(pushed)) by {
            assert forall|i: int, k: Seq<char>|
                0 <= i < pushed.len() && #[trigger] pushed[i].contains_key(k) implies
                    pushed[i][k].callable() by {
                if i > 0 {
                    assert(old(self)@.env[i - 1].contains_key(k));
                }
            }
        }
        let mut i: usize = 0;
        while i < n
            invariant
                i <= n,
                n <= params.len(),
                n <= values.len(),
                values_callable(values_model(values)),
                pushed == push_frame(old(self)@.env),
                self.symbol_table@ == bind_all(
                    pushed,
                    names_model(params),
                    values_model(values),
                    i as int,
                ),
                self.symbol_table@.len() >= 1,
                all_callable(self.symbol_table@),
                self.console == old(self).console,
                self.limit == old(self).limit,
                self.builtins == old(self).builtins,
            decreases n - i,
        {
            let ghost before = self.symbol_table@;
            let value = values[i].clone();
            assert(value@ == values_model(values)[i as int]);
            assert(params@[i as int]@ == names_model(params)[i as int]);
            proof {
                lemma_bind_callable(before, params@[i as int]@, value@);
            }
            self.symbol_table.set(params[i].clone(), value);
            i += 1;
        }
    }

    /// Takes the innermost frame off.
    fn leave(&mut self)
        ensures
            final(self)@ == (State {
                env: leave_frame(old(self)@.env),
                console: old(self)@.console,
            }),
            final(self).limit() == old(self).limit(),
            final(self).registry() == old(self).registry(),
    {
        let mut frame = SymbolTable::new();
        core::mem::swap(&mut self.symbol_table, &mut frame);
        self.symbol_table = frame.into_parent();
    }

    /// Evaluates `node` in the evaluator's state, within its bound.
    ///
    /// A call that returns leaves the environment as it was: what the
    /// function bound, in its own frame or under a name that the caller
    /// binds, is gone with its frame.
    pub fn eval(&mut self, node: &AstNode) -> (r: Result<Value, String>)
        requires
            old(self).wf(),
            node@.evaluable(),
        ensures
            (Outcome { state: final(self)@, result: result_model(r) }) == semantics::eval(
                old(self)@,
                node@,
                old(self).limit(),
            ),
            node@ is FuncCall && r is Ok ==> final(self)@.env == old(self)@.env,
            final(self).wf(),
            final(self).limit() == old(self).limit(),
            final(self).registry() == old(self).registry(),
    {
        let limit = self.limit;
        self.eval_at(node, limit)
    }

    /// Evaluates `node` in the evaluator's state, at most `fuel` high.
    pub fn eval_at(&mut self, node: &AstNode, fuel: u64) -> (r: Result<Value, String>)
        requires
            old(self).wf(),
            node@.evaluable(),
        ensures
            (Outcome { state: final(self)@, result: result_model(r) }) == semantics::eval(
                old(self)@,
                node@,
                fuel as nat,
            ),
            node@ is FuncCall && r is Ok ==> final(self)@.env == old(self)@.env,
            final(self).wf(),
            final(self).limit() == old(self).limit(),
            final(self).registry() == old(self).registry(),
            r matches Ok(v) ==> v@.callable(),
        decreases fuel, 0int,
    {
        proof {
            reveal_with_fuel(AstNode::model, 2);
        }
        if fuel == 0 {
            return Err(String::from_str("Evaluation limit exceeded"));
        }
        let f: u64 = fuel - 1;
        match node {
            AstNode::Program(funcdefs) => self.eval_program_at(funcdefs, f),
            AstNode::FuncDef { name, args, body } => {
                match &**args {
                    AstNode::DefArgList(arg_names) => {
                        let func = Value::Function(
                            name.clone(),
                            clone_names(arg_names),
                            Box::new((**body).clone()),
                        );
                        proof {
                            lemma_bind_callable(self@.env, name@, func@);
                        }
                        self.symbol_table.set(name.clone(), func);
                        Ok(Value::Integer(0))
                    },
                    _ => Err(String::from_str("Invalid function definition")),
                }
            },
            AstNode::Expression(expr) => self.eval_at(expr, f),
            AstNode::BinaryExpression { lhs, op, rhs } => {
                let left = match self.eval_at(lhs, f) {
                    Ok(v) => v,
                    Err(e) => {
                        return Err(e);
                    },
                };
                let right = match self.eval_at(rhs, f) {
                    Ok(v) => v,
                    Err(e) => {
                        return Err(e);
                    },
                };
                apply_binary(*op, &left, &right)
            },
            AstNode::UnaryExpression { op, child } => {
                let value = match self.eval_at(child, f) {
                    Ok(v) => v,
                    Err(e) => {
                        return Err(e);
                    },
                };
                apply_unary(*op, &value)
            },
            AstNode::Term(term) => self.eval_at(term, f),
            AstNode::Int(i) => Ok(Value::Integer(*i)),
            AstNode::Boolean(b) => Ok(Value::Boolean(*b)),
            AstNode::Str(s) => Ok(Value::String(s.clone())),
            AstNode::Identifier(name) => {
                proof {
                    lemma_lookup_callable(self@.env, name@);
                }
                match self.symbol_table.get(name.as_str()) {
                    Some(v) => Ok(v),
                    None => Err(String::from_str("Undefined variable ").concat(name.as_str())),
                }
            },
            AstNode::Block(statements) => self.eval_block_at(statements, f),
            AstNode::FuncReturn(expr) => self.eval_at(expr, f),
            AstNode::VarDecl { name, value } => {
                let val = match value {
                    Some(expr) => match self.eval_at(expr, f) {
                        Ok(v) => v,
                        Err(e) => {
                            return Err(e);
                        },
                    },
                    None => Value::Integer(0),
                };
                proof {
                    lemma_bind_callable(self@.env, name@, val@);
                }
                self.symbol_table.set(name.clone(), val);
                Ok(Value::Integer(0))
            },
            AstNode::VarSet { name, value } => {
                let val = match self.eval_at(value, f) {
                    Ok(v) => v,
                    Err(e) => {
                        return Err(e);
                    },
                };
                proof {
                    lemma_bind_callable(self@.env, name@, val@);
                }
                self.symbol_table.set(name.clone(), val);
                Ok(Value::Integer(0))
            },
            AstNode::FuncCall { name, args } => {
                proof {
                    lemma_lookup_callable(self@.env, name@);
                    lemma_expressions_are_evaluable(arguments(args@));
                    lemma_expression_keeps_env(self@, node@, fuel as nat);
                }
                match self.symbol_table.get(name.as_str()) {
                    Some(Value::Function(_, params, body)) => {
                        match &**args {
                            AstNode::ArgList(arg_values) => {
                                let n = if params.len() <= arg_values.len() {
                                    params.len()
                                } else {
                                    arg_values.len()
                                };
                                assert(n == bound_count(names_model(&params), arguments(args@)));
                                let values = match self.eval_args_at(arg_values, n, f) {
                                    Ok(v) => v,
                                    Err(e) => {
                                        return Err(e);
                                    },
                                };
                                let ghost caller = self@;
                                self.enter(&params, &values, n);
                                let ghost entry = self@;
                                proof {
                                    lemma_push_then_drop(caller.env);
                                    lemma_bind_all_keeps_ancestors(
                                        push_frame(caller.env),
                                        names_model(&params),
                                        values_model(&values),
                                        n as int,
                                    );
                                    lemma_eval_keeps_ancestors(entry, body@, f as nat);
                                }
                                match self.eval_at(&body, f) {
                                    Ok(result) => {
                                        self.leave();
                                        assert(self@.env == caller.env);
                                        Ok(result)
                                    },
                                    Err(e) => Err(e),
                                }
                            },
                            _ => unreached(),
                        }
                    },
                    Some(Value::BuiltinFunction(func)) => {
                        match &**args {
                            AstNode::ArgList(arg_values) => {
                                let n = arg_values.len();
                                let values = match self.eval_args_at(arg_values, n, f) {
                                    Ok(v) => v,
                                    Err(e) => {
                                        return Err(e);
                                    },
                                };
                                Builtins::call(func, &mut self.console, values)
                            },
                            _ => unreached(),
                        }
                    },
                    _ => Err(
                        String::from_str("Function '").concat(name.as_str()).concat("' not found"),
                    ),
                }
            },
            AstNode::IfStatement { condition, body } => {
                match self.eval_at(condition, f) {
                    Ok(Value::Boolean(true)) => self.eval_at(body, f),
                    Ok(Value::Boolean(false)) => Ok(Value::Integer(0)),
                    Ok(_) => Err(String::from_str("Condition is not a boolean")),
                    Err(e) => Err(e),
                }
            },
            AstNode::WhileLoop { condition, body } => self.eval_while_at(condition, body, f),
            AstNode::ForLoop { params, body } => {
                match &**params {
                    AstNode::ForLoopParams { initialization, condition, updater } => {
                        match self.eval_at(initialization, f) {
                            Ok(_) => self.eval_for_at(condition, body, updater, f),
                            Err(e) => Err(e),
                        }
                    },
                    _ => Err(String::from_str("Invalid for loop parameters")),
                }
            },
            AstNode::ForLoopParams { .. } | AstNode::DefArgList(_) | AstNode::ArgList(_) => {
                unreached()
            },
        }
    }

    /// Evaluates the definitions of a program, one after the other.
    fn eval_program_at(&mut self, defs: &Vec<Box<AstNode>>, fuel: u64) -> (r: Result<
        Value,
        String,
    >)
        requires
            old(self).wf(),
            all_evaluable(nodes_model(defs)),
        ensures
            (Outcome { state: final(self)@, result: result_model(r) }) == eval_program(
                old(self)@,
                nodes_model(defs),
                0,
                Val::Integer(0),
                fuel as nat,
            ),
            final(self).wf(),
            final(self).limit() == old(self).limit(),
            final(self).registry() == old(self).registry(),
            r matches Ok(v) ==> v@.callable(),
        decreases fuel, 1int,
    {
        let mut result = Value::Integer(0);
        let mut i: usize = 0;
        while i < defs.len()
            invariant
                i <= defs.len(),
                self.wf(),
                self.limit() == old(self).limit(),
                self.registry() == old(self).registry(),
                all_evaluable(nodes_model(defs)),
                result@.callable(),
                eval_program(old(self)@, nodes_model(defs), 0, Val::Integer(0), fuel as nat)
                    == eval_program(self@, nodes_model(defs), i as int, result@, fuel as nat),
            decreases defs.len() - i,
        {
            assert(nodes_model(defs)[i as int] == defs@[i as int]@);
            assert(nodes_model(defs)[i as int].evaluable());
            match self.eval_at(&defs[i], fuel) {
                Ok(v) => {
                    result = v;
                },
                Err(e) => {
                    return Err(e);
                },
            }
            i += 1;
        }
        Ok(result)
    }

    /// Evaluates the statements of a block, up to the first whose result is
    /// not the integer 0.
    fn eval_block_at(&mut self, stmts: &Vec<Box<AstNode>>, fuel: u64) -> (r: Result<
        Value,
        String,
    >)
        requires
            old(self).wf(),
            all_evaluable(nodes_model(stmts)),
        ensures
            (Outcome { state: final(self)@, result: result_model(r) }) == eval_block(
                old(self)@,
                nodes_model(stmts),
                0,
                fuel as nat,
            ),
            final(self).wf(),
            final(self).limit() == old(self).limit(),
            final(self).registry() == old(self).registry(),
            r matches Ok(v) ==> v@.callable(),
        decreases fuel, 1int,
    {
        let mut i: usize = 0;
        while i < stmts.len()
            invariant
                i <= stmts.len(),
                self.wf(),
                self.limit() == old(self).limit(),
                self.registry() == old(self).registry(),
                all_evaluable(nodes_model(stmts)),
                eval_block(old(self)@, nodes_model(stmts), 0, fuel as nat) == eval_block(
                    self@,
                    nodes_model(stmts),
                    i as int,
                    fuel as nat,
                ),
            decreases stmts.len() - i,
        {
            assert(nodes_model(stmts)[i as int] == stmts@[i as int]@);
            assert(nodes_model(stmts)[i as int].evaluable());
            match self.eval_at(&stmts[i], fuel) {
                Ok(Value::Integer(0)) => {},
                Ok(v) => {
                    return Ok(v);
                },
                Err(e) => {
                    return Err(e);
                },
            }
            i += 1;
        }
        Ok(Value::Integer(0))
    }

    /// Evaluates the first `n` arguments of a call, one after the other.
    fn eval_args_at(&mut self, args: &Vec<Box<AstNode>>, n: usize, fuel: u64) -> (r: Result<
        Vec<Value>,
        String,
    >)
        requires
            old(self).wf(),
            all_evaluable(nodes_model(args)),
            n <= args.len(),
        ensures
            (ArgsOutcome { state: final(self)@, result: args_model(r) }) == eval_args(
                old(self)@,
                nodes_model(args),
                0,
                n as int,
                Seq::empty(),
                fuel as nat,
            ),
            final(self).wf(),
            final(self).limit() == old(self).limit(),
            final(self).registry() == old(self).registry(),
            r matches Ok(v) ==> v.len() == n && values_callable(values_model(&v)),
        decreases fuel, 1int,
    {
        let mut values: Vec<Value> = Vec::new();
        let mut i: usize = 0;
        assert(values_model(&values) =~= Seq::empty());
        while i < n
            invariant
                i <= n <= args.len(),
                values.len() == i,
                self.wf(),
                self.limit() == old(self).limit(),
                self.registry() == old(self).registry(),
                all_evaluable(nodes_model(args)),
                values_callable(values_model(&values)),
                eval_args(
                    old(self)@,
                    nodes_model(args),
                    0,
                    n as int,
                    Seq::empty(),
                    fuel as nat,
                ) == eval_args(
                    self@,
                    nodes_model(args),
                    i as int,
                    n as int,
                    values_model(&values),
                    fuel as nat,
                ),
            decreases n - i,
        {
            assert(nodes_model(args)[i as int] == args@[i as int]@);
            assert(nodes_model(args)[i as int].evaluable());
            let ghost before = values_model(&values);
            match self.eval_at(&args[i], fuel) {
                Ok(v) => {
                    values.push(v);
                    assert(values_model(&values) =~= before.push(v@));
                },
                Err(e) => {
                    return Err(e);
                },
            }
            i += 1;
        }
        Ok(values)
    }

    /// Runs a `while` loop.
    fn eval_while_at(&mut self, condition: &AstNode, body: &AstNode, fuel: u64) -> (r: Result<
        Value,
        String,
    >)
        requires
            old(self).wf(),
            condition@.evaluable(),
            body@.evaluable(),
        ensures
            (Outcome { state: final(self)@, result: result_model(r) }) == eval_while(
                old(self)@,
                condition@,
                body@,
                fuel as nat,
            ),
            final(self).wf(),
            final(self).limit() == old(self).limit(),
            final(self).registry() == old(self).registry(),
            r matches Ok(v) ==> v@.callable(),
        decreases fuel, 1int,
    {
        let mut f: u64 = fuel;
        loop
            invariant
                f <= fuel,
                self.wf(),
                self.limit() == old(self).limit(),
                self.registry() == old(self).registry(),
                condition@.evaluable(),
                body@.evaluable(),
                eval_while(old(self)@, condition@, body@, fuel as nat) == eval_while(
                    self@,
                    condition@,
                    body@,
                    f as nat,
                ),
            decreases f,
        {
            if f == 0 {
                return Err(String::from_str("Evaluation limit exceeded"));
            }
            match self.eval_at(condition, f) {
                Ok(Value::Boolean(true)) => {},
                Ok(Value::Boolean(false)) => {
                    return Ok(Value::Integer(0));
                },
                Ok(_) => {
                    return Err(String::from_str("Condition is not a boolean"));
                },
                Err(e) => {
                    return Err(e);
                },
            }
            match self.eval_at(body, f) {
                Ok(_) => {},
                Err(e) => {
                    return Err(e);
                },
            }
            f = f - 1;
        }
    }

    /// Runs a `for` loop whose first statement is done.
    fn eval_for_at(
        &mut self,
        condition: &AstNode,
        body: &AstNode,
        updater: &AstNode,
        fuel: u64,
    ) -> (r: Result<Value, String>)
        requires
            old(self).wf(),
            condition@.evaluable(),
            body@.evaluable(),
            updater@.evaluable(),
        ensures
            (Outcome { state: final(self)@, result: result_model(r) }) == eval_for(
                old(self)@,
                condition@,
                body@,
                updater@,
                fuel as nat,
            ),
            final(self).wf(),
            final(self).limit() == old(self).limit(),
            final(self).registry() == old(self).registry(),
            r matches Ok(v) ==> v@.callable(),
        decreases fuel, 1int,
    {
        let mut f: u64 = fuel;
        loop
            invariant
                f <= fuel,
                self.wf(),
                self.limit() == old(self).limit(),
                self.registry() == old(self).registry(),
                condition@.evaluable(),
                body@.evaluable(),
                updater@.evaluable(),
                eval_for(old(self)@, condition@, body@, updater@, fuel as nat) == eval_for(
                    self@,
                    condition@,
                    body@,
                    updater@,
                    f as nat,
                ),
            decreases f,
        {
            if f == 0 {
                return Err(String::from_str("Evaluation limit exceeded"));
            }
            match self.eval_at(condition, f) {
                Ok(Value::Boolean(true)) => {},
                Ok(Value::Boolean(false)) => {
                    return Ok(Value::Integer(0));
                },
                Ok(_) => {
                    return Err(String::from_str("Condition is not a boolean"));
                },
                Err(e) => {
                    return Err(e);
                },
            }
            match self.eval_at(body, f) {
                Ok(_) => {},
                Err(e) => {
                    return Err(e);
                },
            }
            match self.eval_at(updater, f) {
                Ok(_) => {},
                Err(e) => {
                    return Err(e);
                },
            }
            f = f - 1;
        }
    }

    /// Runs a program: binds its definitions, then evaluates the body of
    /// `main` in a frame of its own.
    pub fn run(&mut self, ast: &AstNode) -> (r: Result<Value, String>)
        requires
            old(self).wf(),
            ast@.evaluable(),
        ensures
            (Outcome { state: final(self)@, result: result_model(r) }) == run(
                old(self)@,
                ast@,
                old(self).limit(),
            ),
            final(self).wf(),
            final(self).limit() == old(self).limit(),
            final(self).registry() == old(self).registry(),
    {
        let limit = self.limit;
        let _ = self.eval_at(ast, limit);
        proof {
            reveal_strlit("main");
            lemma_lookup_callable(self@.env, "main"@);
        }
        match self.symbol_table.get("main") {
            Some(Value::Function(_, params, body)) => {
                if params.len() > 0 {
                    return Err(String::from_str("main() function should not have parameters"));
                }
                let values: Vec<Value> = Vec::new();
                self.enter(&params, &values, 0);
                let result = self.eval_at(&body, limit);
                let ghost inside = self@.env;
                self.leave();
                assert(all_callable(self@.env)) by {
                    let after = self@.env;
                    assert forall|i: int, k: Seq<char>|
                        0 <= i < after.len() && #[trigger] after[i].contains_key(k) implies
                            after[i][k].callable() by {
                        if inside.len() > 1 {
                            assert(inside[i + 1].contains_key(k));
                        }
                    }
                }
                result
            },
            _ => Err(String::from_str("No main() function defined")),
        }
    }
}

} // verus!
