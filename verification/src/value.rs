//! The values that evaluation produces.

use crate::ast::{clone_names, names_model, Ast, AstNode};
use crate::builtins::BuiltinFunction;
use vstd::prelude::*;

verus! {

/// The mathematical model of a value.
pub enum Val {
    Integer(i32),
    String(Seq<char>),
    Boolean(bool),
    Function(Seq<char>, Seq<Seq<char>>, Ast),
    BuiltinFunction(BuiltinFunction),
}

/// A value of the language.
///
/// A function is its name, its parameter names and its body; it holds no
/// environment.
#[derive(Debug, PartialEq, Eq)]
pub enum Value {
    /// A signed 32-bit integer.
    Integer(i32),
    /// A string.
    String(String),
    /// A boolean.
    Boolean(bool),
    /// A function of the program: name, parameter names, body.
    Function(String, Vec<String>, Box<AstNode>),
    /// A function that the language itself provides.
    BuiltinFunction(BuiltinFunction),
}

impl Val {
    /// Whether calling this value cannot meet a body without a meaning: a
    /// function's body is evaluable.
    pub open spec fn callable(self) -> bool {
        match self {
            Val::Function(_, _, body) => body.evaluable(),
            _ => true,
        }
    }

    /// Whether a block goes on after a statement with this result.
    pub open spec fn is_zero(self) -> bool {
        self == Val::Integer(0)
    }
}

impl View for Value {
    type V = Val;

    open spec fn view(&self) -> Val {
        match self {
            Value::Integer(i) => Val::Integer(*i),
            Value::String(s) => Val::String(s@),
            Value::Boolean(b) => Val::Boolean(*b),
            Value::Function(name, params, body) => Val::Function(
                name@,
                names_model(params),
                body.model(),
            ),
            Value::BuiltinFunction(f) => Val::BuiltinFunction(*f),
        }
    }
}

impl Clone for Value {
    /// A deep copy: a value with the same model.
    fn clone(&self) -> (r: Self)
        ensures
            r@ == self@,
    {
        match self {
            Value::Integer(i) => Value::Integer(*i),
            Value::String(s) => Value::String(s.clone()),
            Value::Boolean(b) => Value::Boolean(*b),
            Value::Function(name, params, body) => Value::Function(
                name.clone(),
                clone_names(params),
                Box::new((**body).clone()),
            ),
            Value::BuiltinFunction(f) => Value::BuiltinFunction(*f),
        }
    }
}

/// The models of a list of values, in order.
pub open spec fn values_model(v: &Vec<Value>) -> Seq<Val> {
    Seq::new(v@.len(), |i: int| v@[i]@)
}

} // verus!
