//! The syntax tree of the language: one variant per syntactic form.
//!
//! `AstNode` is the executable tree. `Ast` is its mathematical model, in which
//! every `Vec` is a `Seq` and every `String` a `Seq<char>`; all contracts of
//! the crate speak of the model.

use vstd::prelude::*;

verus! {

/// The operators that join two operands.
#[derive(Debug, Clone, Copy, PartialEq, Eq)]
pub enum BinaryOperator {
    /// `+`
    Add,
    /// `-`
    Subtract,
    /// `*`
    Multiply,
    /// `/`
    Divide,
    /// `>`
    Greater,
    /// `<`
    Less,
    /// `==`
    Equal,
    /// `!=`
    NotEqual,
    /// `>=`
    GreaterEq,
    /// `<=`
    LessEq,
}

/// The operators that take one operand.
#[derive(Debug, Clone, Copy, PartialEq, Eq)]
pub enum UnaryOperator {
    /// `-`
    Minus,
    /// `!`
    Not,
}

/// The mathematical model of a syntax tree.
#[allow(inconsistent_fields)]
pub enum Ast {
    Program(Seq<Ast>),
    FuncDef { name: Seq<char>, args: Box<Ast>, body: Box<Ast> },
    Block(Seq<Ast>),
    VarDecl { name: Seq<char>, value: Option<Box<Ast>> },
    VarSet { name: Seq<char>, value: Box<Ast> },
    FuncCall { name: Seq<char>, args: Box<Ast> },
    FuncReturn(Box<Ast>),
    ForLoop { params: Box<Ast>, body: Box<Ast> },
    ForLoopParams { initialization: Box<Ast>, condition: Box<Ast>, updater: Box<Ast> },
    WhileLoop { condition: Box<Ast>, body: Box<Ast> },
    IfStatement { condition: Box<Ast>, body: Box<Ast> },
    DefArgList(Seq<Seq<char>>),
    ArgList(Seq<Ast>),
    Expression(Box<Ast>),
    BinaryExpression { lhs: Box<Ast>, op: BinaryOperator, rhs: Box<Ast> },
    UnaryExpression { op: UnaryOperator, child: Box<Ast> },
    Term(Box<Ast>),
    Int(i32),
    Str(Seq<char>),
    Identifier(Seq<char>),
    Boolean(bool),
}

/// A syntax tree. Every node owns its children.
#[derive(Debug, PartialEq, Eq)]
#[allow(inconsistent_fields)]
pub enum AstNode {
    /// The function definitions of a source text, in order.
    Program(Vec<Box<AstNode>>),
    /// A function: its name, a `DefArgList` and a `Block`.
    FuncDef { name: String, args: Box<AstNode>, body: Box<AstNode> },
    /// Statements, in order.
    Block(Vec<Box<AstNode>>),
    /// `let name` or `let name = value`.
    VarDecl { name: String, value: Option<Box<AstNode>> },
    /// `name = value`.
    VarSet { name: String, value: Box<AstNode> },
    /// A call: the callee's name and an `ArgList`.
    FuncCall { name: String, args: Box<AstNode> },
    /// `return` and its expression.
    FuncReturn(Box<AstNode>),
    /// A `for` loop: its `ForLoopParams` and its body.
    ForLoop { params: Box<AstNode>, body: Box<AstNode> },
    /// The header of a `for` loop: two statements around an expression.
    ForLoopParams { initialization: Box<AstNode>, condition: Box<AstNode>, updater: Box<AstNode> },
    /// A `while` loop.
    WhileLoop { condition: Box<AstNode>, body: Box<AstNode> },
    /// An `if` without `else`.
    IfStatement { condition: Box<AstNode>, body: Box<AstNode> },
    /// The parameter names of a function definition.
    DefArgList(Vec<String>),
    /// The argument expressions of a call.
    ArgList(Vec<Box<AstNode>>),
    /// An expression, around what it holds.
    Expression(Box<AstNode>),
    /// Two operands joined by an operator.
    BinaryExpression { lhs: Box<AstNode>, op: BinaryOperator, rhs: Box<AstNode> },
    /// An operator in front of one operand.
    UnaryExpression { op: UnaryOperator, child: Box<AstNode> },
    /// An operand of a binary or unary expression.
    Term(Box<AstNode>),
    /// An integer literal.
    Int(i32),
    /// A string literal, without its quotes.
    Str(String),
    /// A reference to a variable.
    Identifier(String),
    /// A boolean literal.
    Boolean(bool),
}

impl Ast {
    /// Whether every shape that evaluation can reach in this tree has a
    /// meaning: a call holds its arguments in an `ArgList`, each of them an
    /// expression, and no list or loop header stands where a statement or an
    /// expression is expected.
    pub open spec fn evaluable(self) -> bool
        decreases self,
    {
        match self {
            Ast::Program(defs) => all_evaluable(defs),
            Ast::FuncDef { name, args, body } => body.evaluable(),
            Ast::Block(stmts) => all_evaluable(stmts),
            Ast::VarDecl { name, value } => match value {
                Some(v) => v.evaluable(),
                None => true,
            },
            Ast::VarSet { name, value } => value.evaluable(),
            Ast::FuncCall { name, args } => match *args {
                Ast::ArgList(items) => all_expressions(items),
                _ => false,
            },
            Ast::FuncReturn(e) => e.evaluable(),
            Ast::ForLoop { params, body } => body.evaluable() && match *params {
                Ast::ForLoopParams { initialization, condition, updater } =>
                    initialization.evaluable() && condition.evaluable() && updater.evaluable(),
                _ => true,
            },
            Ast::WhileLoop { condition, body } => condition.evaluable() && body.evaluable(),
            Ast::IfStatement { condition, body } => condition.evaluable() && body.evaluable(),
            Ast::Expression(e) => e.evaluable(),
            Ast::BinaryExpression { lhs, op, rhs } => lhs.evaluable() && rhs.evaluable(),
            Ast::UnaryExpression { op, child } => child.evaluable(),
            Ast::Term(e) => e.evaluable(),
            Ast::Int(_) | Ast::Str(_) | Ast::Identifier(_) | Ast::Boolean(_) => true,
            Ast::ForLoopParams { .. } | Ast::DefArgList(_) | Ast::ArgList(_) => false,
        }
    }
}

/// Whether every tree of a list is evaluable.
pub open spec fn all_evaluable(s: Seq<Ast>) -> bool
    decreases s,
{
    forall|i: int| 0 <= i < s.len() ==> (#[trigger] s[i]).evaluable()
}

/// Whether `node` is an expression: a literal, a name, an operator on
/// expressions, or a call whose arguments are expressions.
pub open spec fn is_expression(node: Ast) -> bool
    decreases node,
{
    match node {
        Ast::Int(_) | Ast::Str(_) | Ast::Boolean(_) | Ast::Identifier(_) => true,
        Ast::Expression(e) => is_expression(*e),
        Ast::Term(e) => is_expression(*e),
        Ast::UnaryExpression { op, child } => is_expression(*child),
        Ast::BinaryExpression { lhs, op, rhs } => is_expression(*lhs) && is_expression(*rhs),
        Ast::FuncCall { name, args } => match *args {
            Ast::ArgList(items) => all_expressions(items),
            _ => false,
        },
        _ => false,
    }
}

/// Whether every node of a list is an expression.
pub open spec fn all_expressions(items: Seq<Ast>) -> bool
    decreases items,
{
    forall|i: int| 0 <= i < items.len() ==> is_expression(#[trigger] items[i])
}

impl Ast {
    /// Whether every call in this tree takes expressions as arguments, and
    /// every value, condition and returned result is an expression.
    pub open spec fn plain(self) -> bool
        decreases self,
    {
        match self {
            Ast::Program(defs) => all_plain(defs),
            Ast::FuncDef { name, args, body } => body.plain(),
            Ast::Block(stmts) => all_plain(stmts),
            Ast::VarDecl { name, value } => match value {
                Some(v) => is_expression(*v),
                None => true,
            },
            Ast::VarSet { name, value } => is_expression(*value),
            Ast::FuncReturn(e) => is_expression(*e),
            Ast::ForLoop { params, body } => body.plain() && match *params {
                Ast::ForLoopParams { initialization, condition, updater } => initialization.plain()
                    && is_expression(*condition) && updater.plain(),
                _ => false,
            },
            Ast::WhileLoop { condition, body } => is_expression(*condition) && body.plain(),
            Ast::IfStatement { condition, body } => is_expression(*condition) && body.plain(),
            Ast::ForLoopParams { .. } | Ast::DefArgList(_) | Ast::ArgList(_) => false,
            _ => is_expression(self),
        }
    }
}

impl Ast {
    /// Whether this tree is a program that holds function definitions only.
    pub open spec fn definitions_only(self) -> bool {
        match self {
            Ast::Program(defs) => forall|i: int| 0 <= i < defs.len() ==> (#[trigger] defs[i]) is FuncDef,
            _ => false,
        }
    }
}

/// Whether every tree of a list is plain.
pub open spec fn all_plain(s: Seq<Ast>) -> bool
    decreases s,
{
    forall|i: int| 0 <= i < s.len() ==> (#[trigger] s[i]).plain()
}

/// An expression can be evaluated.
pub proof fn lemma_expression_is_evaluable(node: Ast)
    requires
        is_expression(node),
    ensures
        node.evaluable(),
    decreases node,
{
    reveal_with_fuel(is_expression, 2);
    reveal_with_fuel(Ast::evaluable, 2);
    match node {
        Ast::Expression(e) => {
            lemma_expression_is_evaluable(*e);
        },
        Ast::Term(e) => {
            lemma_expression_is_evaluable(*e);
        },
        Ast::UnaryExpression { op, child } => {
            lemma_expression_is_evaluable(*child);
        },
        Ast::BinaryExpression { lhs, op, rhs } => {
            lemma_expression_is_evaluable(*lhs);
            lemma_expression_is_evaluable(*rhs);
        },
        _ => {},
    }
}

/// Expressions can be evaluated.
pub proof fn lemma_expressions_are_evaluable(items: Seq<Ast>)
    requires
        all_expressions(items),
    ensures
        all_evaluable(items),
{
    assert forall|i: int| 0 <= i < items.len() implies (#[trigger] items[i]).evaluable() by {
        lemma_expression_is_evaluable(items[i]);
    }
}

/// A plain tree can be evaluated.
pub proof fn lemma_plain_is_evaluable(node: Ast)
    requires
        node.plain(),
    ensures
        node.evaluable(),
    decreases node,
{
    reveal_with_fuel(Ast::plain, 2);
    reveal_with_fuel(Ast::evaluable, 2);
    match node {
        Ast::Program(defs) => {
            assert forall|i: int| 0 <= i < defs.len() implies (#[trigger] defs[i]).evaluable() by {
                lemma_plain_is_evaluable(defs[i]);
            }
        },
        Ast::FuncDef { name, args, body } => {
            lemma_plain_is_evaluable(*body);
        },
        Ast::Block(stmts) => {
            assert forall|i: int| 0 <= i < stmts.len() implies
                (#[trigger] stmts[i]).evaluable() by {
                lemma_plain_is_evaluable(stmts[i]);
            }
        },
        Ast::VarDecl { name, value } => {
            match value {
                Some(v) => {
                    lemma_expression_is_evaluable(*v);
                },
                None => {},
            }
        },
        Ast::VarSet { name, value } => {
            lemma_expression_is_evaluable(*value);
        },
        Ast::FuncReturn(e) => {
            lemma_expression_is_evaluable(*e);
        },
        Ast::ForLoop { params, body } => {
            lemma_plain_is_evaluable(*body);
            match *params {
                Ast::ForLoopParams { initialization, condition, updater } => {
                    lemma_plain_is_evaluable(*initialization);
                    lemma_expression_is_evaluable(*condition);
                    lemma_plain_is_evaluable(*updater);
                },
                _ => {},
            }
        },
        Ast::WhileLoop { condition, body } => {
            lemma_expression_is_evaluable(*condition);
            lemma_plain_is_evaluable(*body);
        },
        Ast::IfStatement { condition, body } => {
            lemma_expression_is_evaluable(*condition);
            lemma_plain_is_evaluable(*body);
        },
        Ast::ForLoopParams { .. } | Ast::DefArgList(_) | Ast::ArgList(_) => {},
        _ => {
            lemma_expression_is_evaluable(node);
        },
    }
}

/// The models of a list of nodes, in order.
pub open spec fn nodes_model(v: &Vec<Box<AstNode>>) -> Seq<Ast>
    decreases v,
{
    Seq::new(
        v@.len(),
        |i: int|
            if 0 <= i < v@.len() {
                v@[i].model()
            } else {
                arbitrary()
            },
    )
}

/// The views of a list of strings, in order.
pub open spec fn names_model(v: &Vec<String>) -> Seq<Seq<char>> {
    Seq::new(v@.len(), |i: int| v@[i]@)
}

impl AstNode {
    /// The model of this tree.
    pub open spec fn model(&self) -> Ast
        decreases self,
    {
        match self {
            AstNode::Program(defs) => Ast::Program(nodes_model(defs)),
            AstNode::FuncDef { name, args, body } => Ast::FuncDef {
                name: name@,
                args: Box::new(args.model()),
                body: Box::new(body.model()),
            },
            AstNode::Block(stmts) => Ast::Block(nodes_model(stmts)),
            AstNode::VarDecl { name, value } => Ast::VarDecl {
                name: name@,
                value: match value {
                    Some(v) => Some(Box::new(v.model())),
                    None => None,
                },
            },
            AstNode::VarSet { name, value } => Ast::VarSet {
                name: name@,
                value: Box::new(value.model()),
            },
            AstNode::FuncCall { name, args } => Ast::FuncCall {
                name: name@,
                args: Box::new(args.model()),
            },
            AstNode::FuncReturn(e) => Ast::FuncReturn(Box::new(e.model())),
            AstNode::ForLoop { params, body } => Ast::ForLoop {
                params: Box::new(params.model()),
                body: Box::new(body.model()),
            },
            AstNode::ForLoopParams { initialization, condition, updater } => Ast::ForLoopParams {
                initialization: Box::new(initialization.model()),
                condition: Box::new(condition.model()),
                updater: Box::new(updater.model()),
            },
            AstNode::WhileLoop { condition, body } => Ast::WhileLoop {
                condition: Box::new(condition.model()),
                body: Box::new(body.model()),
            },
            AstNode::IfStatement { condition, body } => Ast::IfStatement {
                condition: Box::new(condition.model()),
                body: Box::new(body.model()),
            },
            AstNode::DefArgList(names) => Ast::DefArgList(names_model(names)),
            AstNode::ArgList(args) => Ast::ArgList(nodes_model(args)),
            AstNode::Expression(e) => Ast::Expression(Box::new(e.model())),
            AstNode::BinaryExpression { lhs, op, rhs } => Ast::BinaryExpression {
                lhs: Box::new(lhs.model()),
                op: *op,
                rhs: Box::new(rhs.model()),
            },
            AstNode::UnaryExpression { op, child } => Ast::UnaryExpression {
                op: *op,
                child: Box::new(child.model()),
            },
            AstNode::Term(e) => Ast::Term(Box::new(e.model())),
            AstNode::Int(i) => Ast::Int(*i),
            AstNode::Str(s) => Ast::Str(s@),
            AstNode::Identifier(s) => Ast::Identifier(s@),
            AstNode::Boolean(b) => Ast::Boolean(*b),
        }
    }
}

impl View for AstNode {
    type V = Ast;

    open spec fn view(&self) -> Ast {
        self.model()
    }
}

/// A copy of a list of strings.
pub fn clone_names(v: &Vec<String>) -> (r: Vec<String>)
    ensures
        names_model(&r) == names_model(v),
{
    let mut out: Vec<String> = Vec::new();
    let mut i: usize = 0;
    while i < v.len()
        invariant
            i <= v.len(),
            out.len() == i,
            forall|j: int| 0 <= j < i ==> out@[j]@ == v@[j]@,
        decreases v.len() - i,
    {
        out.push(v[i].clone());
        i += 1;
    }
    assert(names_model(&out) =~= names_model(v));
    out
}

/// A deep copy of a list of nodes.
pub fn clone_nodes(v: &Vec<Box<AstNode>>) -> (r: Vec<Box<AstNode>>)
    ensures
        nodes_model(&r) == nodes_model(v),
    decreases v,
{
    let mut out: Vec<Box<AstNode>> = Vec::new();
    let mut i: usize = 0;
    while i < v.len()
        invariant
            i <= v.len(),
            out.len() == i,
            forall|j: int| 0 <= j < i ==> out@[j].model() == v@[j].model(),
        decreases v.len() - i,
    {
        let c = (*v[i]).clone();
        out.push(Box::new(c));
        i += 1;
    }
    assert(nodes_model(&out) =~= nodes_model(v));
    out
}

impl Clone for AstNode {
    /// A deep copy: a tree with the same model.
    fn clone(&self) -> (r: Self)
        ensures
            r@ == self@,
        decreases self,
    {
        match self {
            AstNode::Program(defs) => AstNode::Program(clone_nodes(defs)),
            AstNode::FuncDef { name, args, body } => AstNode::FuncDef {
                name: name.clone(),
                args: Box::new((**args).clone()),
                body: Box::new((**body).clone()),
            },
            AstNode::Block(stmts) => AstNode::Block(clone_nodes(stmts)),
            AstNode::VarDecl { name, value } => AstNode::VarDecl {
                name: name.clone(),
                value: match value {
                    Some(v) => Some(Box::new((**v).clone())),
                    None => None,
                },
            },
            AstNode::VarSet { name, value } => AstNode::VarSet {
                name: name.clone(),
                value: Box::new((**value).clone()),
            },
            AstNode::FuncCall { name, args } => AstNode::FuncCall {
                name: name.clone(),
                args: Box::new((**args).clone()),
            },
            AstNode::FuncReturn(e) => AstNode::FuncReturn(Box::new((**e).clone())),
            AstNode::ForLoop { params, body } => AstNode::ForLoop {
                params: Box::new((**params).clone()),
                body: Box::new((**body).clone()),
            },
            AstNode::ForLoopParams { initialization, condition, updater } => {
                AstNode::ForLoopParams {
                    initialization: Box::new((**initialization).clone()),
                    condition: Box::new((**condition).clone()),
                    updater: Box::new((**updater).clone()),
                }
            },
            AstNode::WhileLoop { condition, body } => AstNode::WhileLoop {
                condition: Box::new((**condition).clone()),
                body: Box::new((**body).clone()),
            },
            AstNode::IfStatement { condition, body } => AstNode::IfStatement {
                condition: Box::new((**condition).clone()),
                body: Box::new((**body).clone()),
            },
            AstNode::DefArgList(names) => AstNode::DefArgList(clone_names(names)),
            AstNode::ArgList(args) => AstNode::ArgList(clone_nodes(args)),
            AstNode::Expression(e) => AstNode::Expression(Box::new((**e).clone())),
            AstNode::BinaryExpression { lhs, op, rhs } => AstNode::BinaryExpression {
                lhs: Box::new((**lhs).clone()),
                op: *op,
                rhs: Box::new((**rhs).clone()),
            },
            AstNode::UnaryExpression { op, child } => AstNode::UnaryExpression {
                op: *op,
                child: Box::new((**child).clone()),
            },
            AstNode::Term(e) => AstNode::Term(Box::new((**e).clone())),
            AstNode::Int(i) => AstNode::Int(*i),
            AstNode::Str(s) => AstNode::Str(s.clone()),
            AstNode::Identifier(s) => AstNode::Identifier(s.clone()),
            AstNode::Boolean(b) => AstNode::Boolean(*b),
        }
    }
}

/// Tests every node of a list with `is_expression`.
pub fn all_nodes_expressions(v: &Vec<Box<AstNode>>) -> (r: bool)
    ensures
        r == all_expressions(nodes_model(v)),
    decreases v,
{
    let mut i: usize = 0;
    while i < v.len()
        invariant
            i <= v.len(),
            forall|j: int| 0 <= j < i ==> is_expression(#[trigger] nodes_model(v)[j]),
        decreases v.len() - i,
    {
        if !(*v[i]).is_expression() {
            assert(!is_expression(nodes_model(v)[i as int]));
            return false;
        }
        i += 1;
    }
    true
}

/// Tests every node of a list with `is_evaluable`.
pub fn all_nodes_evaluable(v: &Vec<Box<AstNode>>) -> (r: bool)
    ensures
        r == all_evaluable(nodes_model(v)),
    decreases v,
{
    let mut i: usize = 0;
    while i < v.len()
        invariant
            i <= v.len(),
            forall|j: int| 0 <= j < i ==> (#[trigger] nodes_model(v)[j]).evaluable(),
        decreases v.len() - i,
    {
        if !(*v[i]).is_evaluable() {
            assert(!nodes_model(v)[i as int].evaluable());
            return false;
        }
        i += 1;
    }
    true
}

impl AstNode {
    /// Tests whether the tree is an expression.
    pub fn is_expression(&self) -> (r: bool)
        ensures
            r == is_expression(self@),
        decreases self,
    {
        proof {
            reveal_with_fuel(AstNode::model, 2);
            reveal_with_fuel(is_expression, 2);
        }
        match self {
            AstNode::Int(_) | AstNode::Str(_) | AstNode::Boolean(_) | AstNode::Identifier(_) => true,
            AstNode::Expression(e) => e.is_expression(),
            AstNode::Term(e) => e.is_expression(),
            AstNode::UnaryExpression { op, child } => child.is_expression(),
            AstNode::BinaryExpression { lhs, op, rhs } => lhs.is_expression() && rhs.is_expression(),
            AstNode::FuncCall { name, args } => match &**args {
                AstNode::ArgList(items) => all_nodes_expressions(items),
                _ => false,
            },
            _ => false,
        }
    }

    /// Tests whether the tree is evaluable.
    pub fn is_evaluable(&self) -> (r: bool)
        ensures
            r == self@.evaluable(),
        decreases self,
    {
        proof {
            reveal_with_fuel(AstNode::model, 2);
        }
        match self {
            AstNode::Program(defs) => all_nodes_evaluable(defs),
            AstNode::FuncDef { name, args, body } => body.is_evaluable(),
            AstNode::Block(stmts) => all_nodes_evaluable(stmts),
            AstNode::VarDecl { name, value } => match value {
                Some(v) => v.is_evaluable(),
                None => true,
            },
            AstNode::VarSet { name, value } => value.is_evaluable(),
            AstNode::FuncCall { name, args } => match &**args {
                AstNode::ArgList(items) => all_nodes_expressions(items),
                _ => false,
            },
            AstNode::FuncReturn(e) => e.is_evaluable(),
            AstNode::ForLoop { params, body } => {
                let header = match &**params {
                    AstNode::ForLoopParams { initialization, condition, updater } => {
                        initialization.is_evaluable() && condition.is_evaluable()
                            && updater.is_evaluable()
                    },
                    _ => true,
                };
                body.is_evaluable() && header
            },
            AstNode::WhileLoop { condition, body } => {
                condition.is_evaluable() && body.is_evaluable()
            },
            AstNode::IfStatement { condition, body } => {
                condition.is_evaluable() && body.is_evaluable()
            },
            AstNode::Expression(e) => e.is_evaluable(),
            AstNode::BinaryExpression { lhs, op, rhs } => lhs.is_evaluable() && rhs.is_evaluable(),
            AstNode::UnaryExpression { op, child } => child.is_evaluable(),
            AstNode::Term(e) => e.is_evaluable(),
            AstNode::Int(_) | AstNode::Str(_) | AstNode::Identifier(_) | AstNode::Boolean(_) => true,
            AstNode::ForLoopParams { .. } | AstNode::DefArgList(_) | AstNode::ArgList(_) => false,
        }
    }
}

} // verus!
