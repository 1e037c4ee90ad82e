//! The internal representation of the language: tokens, syntax trees,
//! scopes and runtime values, each with the mathematical model that the
//! contracts of the other modules speak of.

use vstd::prelude::*;

verus! {

/// A lexical token. A floating-point literal is held as the bit pattern of
/// its IEEE 754 double.
#[derive(Debug, PartialEq)]
pub enum Token {
    Colon,
    Semicolon,
    Comma,
    OpenParen,
    CloseParen,
    OpenBracket,
    CloseBracket,
    OpenBrace,
    CloseBrace,
    ID(String),
    Integer(i64),
    Float(u64),
    String(String),
    True,
    False,
    Nil,
    EOF,
}

#[derive(Debug, PartialEq)]
pub struct Block {
    pub expressions: Vec<Expression>,
}

#[derive(Debug, PartialEq)]
pub enum Expression {
    Nil,
    True,
    False,
    Integer(i64),
    Float(u64),
    String(String),
    List(List),
    Call(Call),
    Definition(Definition),
}

#[derive(Debug, PartialEq)]
pub struct List {
    pub items: Vec<Expression>,
}

#[derive(Debug, PartialEq)]
pub struct Call {
    pub id: String,
    pub params: Vec<Expression>,
}

#[derive(Debug, PartialEq)]
pub struct Definition {
    pub id: String,
    pub params: Vec<String>,
    pub block: Block,
}

/// The model of an expression: strings are sequences of characters and
/// vectors are sequences.
#[allow(inconsistent_fields)]
pub ghost enum Expr {
    Nil,
    True,
    False,
    Integer(i64),
    Float(u64),
    String(Seq<char>),
    List(Seq<Expr>),
    Call { id: Seq<char>, params: Seq<Expr> },
    Definition { id: Seq<char>, params: Seq<Seq<char>>, block: Seq<Expr> },
}

pub open spec fn names_view(names: Seq<String>) -> Seq<Seq<char>> {
    Seq::new(names.len(), |i: int| names[i]@)
}

pub open spec fn exprs_view(exprs: Seq<Expression>) -> Seq<Expr>
    decreases exprs,
{
    Seq::new(exprs.len(), |i: int| if 0 <= i < exprs.len() { exprs[i].view() } else { Expr::Nil })
}

impl View for Expression {
    type V = Expr;

    open spec fn view(&self) -> Expr
        decreases self,
    {
        match self {
            Expression::Nil => Expr::Nil,
            Expression::True => Expr::True,
            Expression::False => Expr::False,
            Expression::Integer(x) => Expr::Integer(*x),
            Expression::Float(x) => Expr::Float(*x),
            Expression::String(s) => Expr::String(s@),
            Expression::List(list) => Expr::List(exprs_view(list.items@)),
            Expression::Call(call) => Expr::Call {
                id: call.id@,
                params: exprs_view(call.params@),
            },
            Expression::Definition(def) => Expr::Definition {
                id: def.id@,
                params: names_view(def.params@),
                block: exprs_view(def.block.expressions@),
            },
        }
    }
}

/// The kinds of exception that evaluation can raise. `Return` is the
/// control-flow signal of an early return; the others are errors.
#[derive(Debug, PartialEq, Eq, Structural)]
pub enum ExceptionType {
    Return,
    Error,
    ArityError,
    ParseError,
    TypeError,
    TypeMismatch,
    DivByZero,
    RuntimeError,
    UndefError,
    RedefError,
}

/// One frame of bindings. Later entries of `bindings` hide earlier ones
/// of the same name, so the frame denotes a finite map from names.
#[derive(Debug, PartialEq)]
pub struct Scope {
    pub bindings: Vec<(String, FunctionOrValue)>,
}

#[derive(Debug, PartialEq)]
pub enum FunctionOrValue {
    Function(Function),
    Value(Evaluation),
}

#[derive(Debug, PartialEq)]
pub enum Evaluation {
    Nil,
    True,
    False,
    Integer(i64),
    Float(u64),
    String(String),
    List(ListEval),
    Function(Function),
    Exception(Exception),
}

#[derive(Debug, PartialEq)]
pub struct ListEval {
    pub items: Vec<Evaluation>,
}

#[derive(Debug, PartialEq)]
pub struct Function {
    pub params: Vec<String>,
    pub block: Block,
}

#[derive(Debug, PartialEq)]
pub struct Exception {
    pub flavor: ExceptionType,
    pub payload: Box<Evaluation>,
    pub stack: Vec<String>,
}

/// The model of a runtime value.
pub ghost enum Value {
    Nil,
    True,
    False,
    Integer(i64),
    Float(u64),
    String(Seq<char>),
    List(Seq<Value>),
    Function { params: Seq<Seq<char>>, block: Seq<Expr> },
    Exception { flavor: ExceptionType, payload: Box<Value>, stack: Seq<Seq<char>> },
}

/// The model of what a name is bound to.
pub ghost enum Binding {
    Function { params: Seq<Seq<char>>, block: Seq<Expr> },
    Value(Value),
}

/// The model of a value.
pub open spec fn value_of(e: Evaluation) -> Value
    decreases e,
{
    match e {
        Evaluation::Nil => Value::Nil,
        Evaluation::True => Value::True,
        Evaluation::False => Value::False,
        Evaluation::Integer(x) => Value::Integer(x),
        Evaluation::Float(x) => Value::Float(x),
        Evaluation::String(s) => Value::String(s@),
        Evaluation::List(list) => Value::List(values_view(list.items@)),
        Evaluation::Function(func) => Value::Function {
            params: names_view(func.params@),
            block: exprs_view(func.block.expressions@),
        },
        Evaluation::Exception(e) => Value::Exception {
            flavor: e.flavor,
            payload: Box::new(value_of(*e.payload)),
            stack: names_view(e.stack@),
        },
    }
}

pub open spec fn values_view(items: Seq<Evaluation>) -> Seq<Value>
    decreases items,
{
    Seq::new(
        items.len(),
        |i: int| if 0 <= i < items.len() { value_of(items[i]) } else { Value::Nil },
    )
}

impl View for Evaluation {
    type V = Value;

    open spec fn view(&self) -> Value {
        value_of(*self)
    }
}

impl View for Block {
    type V = Seq<Expr>;

    open spec fn view(&self) -> Seq<Expr> {
        exprs_view(self.expressions@)
    }
}

impl View for ListEval {
    type V = Seq<Value>;

    open spec fn view(&self) -> Seq<Value> {
        values_view(self.items@)
    }
}

impl View for Function {
    type V = Binding;

    open spec fn view(&self) -> Binding {
        Binding::Function { params: names_view(self.params@), block: self.block@ }
    }
}

impl View for FunctionOrValue {
    type V = Binding;

    open spec fn view(&self) -> Binding {
        match self {
            FunctionOrValue::Function(func) => func@,
            FunctionOrValue::Value(value) => Binding::Value(value@),
        }
    }
}

/// The finite map that a list of bindings denotes: each entry is inserted
/// in turn, so the last entry of a name is the one that counts.
pub open spec fn bindings_map(entries: Seq<(String, FunctionOrValue)>) -> Map<Seq<char>, Binding>
    decreases entries.len(),
{
    if entries.len() == 0 {
        Map::empty()
    } else {
        bindings_map(entries.drop_last()).insert(entries.last().0@, entries.last().1@)
    }
}

impl View for Scope {
    type V = Map<Seq<char>, Binding>;

    open spec fn view(&self) -> Map<Seq<char>, Binding> {
        bindings_map(self.bindings@)
    }
}

/// The models of the frames of a scope stack, outermost first.
pub open spec fn scopes_view(scopes: Seq<Scope>) -> Seq<Map<Seq<char>, Binding>> {
    Seq::new(scopes.len(), |i: int| scopes[i]@)
}

/// What the model of a vector of values holds at each index.
pub proof fn lemma_values_view(values: Seq<Evaluation>)
    ensures
        values_view(values).len() == values.len(),
        forall|i: int| 0 <= i < values.len() ==> (#[trigger] values_view(values)[i]) == values[i]@,
{
}

/// What the model of a vector of expressions holds at each index.
pub proof fn lemma_exprs_view(exprs: Seq<Expression>)
    ensures
        exprs_view(exprs).len() == exprs.len(),
        forall|i: int| 0 <= i < exprs.len() ==> (#[trigger] exprs_view(exprs)[i]) == exprs[i]@,
{
}

/// What the model of a scope stack holds at each index.
pub proof fn lemma_scopes_view(scopes: Seq<Scope>)
    ensures
        scopes_view(scopes).len() == scopes.len(),
        forall|i: int| 0 <= i < scopes.len() ==> (#[trigger] scopes_view(scopes)[i]) == scopes[i]@,
{
}

} // verus!
