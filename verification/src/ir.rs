//! The intermediate representation: methods as flat lists of statements, in
//! which every name has become a number.

use vstd::prelude::*;
use crate::ast::BinaryOperator;
use crate::labels;

verus! {

/// Position of a field among the fields of its class.
#[derive(Clone, Copy, Debug, PartialEq, Eq, Structural)]
pub struct FieldId(pub usize);

/// Position of a method among the methods of the program.
#[derive(Clone, Copy, Debug, PartialEq, Eq, Structural)]
pub struct MethodId(pub usize);

/// Position of a variable in the stack frame of its method.
#[derive(Clone, Copy, Debug, PartialEq, Eq, Structural)]
pub struct VarId(pub usize);

impl VarId {
    /// The variable that holds the receiver in a method that is not static.
    pub fn this() -> (r: VarId)
        ensures
            r == VarId(0),
    {
        VarId(0)
    }
}

pub struct Program {
    pub methods: Vec<Method>,
    pub entry_point: MethodId,
}

#[derive(Debug)]
pub struct Method {
    pub body: Vec<Statement>,
}

#[derive(Debug)]
pub enum Statement {
    Assign(Assign),
    Expression(Expression),
    Return(Option<Expression>),
    /// Reserves the next slot of the stack frame.
    VarDecl,
    /// Continues at the given position of the body if the condition holds.
    Branch(Expression, usize),
    /// Continues at the given position of the body.
    Jump(usize),
    /// Does nothing. Lowering puts it where a branch or a jump will stand
    /// and leaves none behind.
    Nop,
}

#[derive(Debug)]
pub struct Assign {
    pub var_id: VarId,
    pub value: Expression,
}

#[derive(Debug)]
pub enum Expression {
    FieldAccess(Box<FieldAccess>),
    Literal(Literal),
    /// What a binary operation becomes.
    Intrinsic(Box<Intrinsic>),
    MethodCall(MethodCall),
    /// What an identifier or `this` becomes.
    VarRead(VarId),
    /// What `new` becomes: an object whose fields are all null.
    NewObject(labels::ClassDecl),
}

#[derive(Debug)]
pub struct FieldAccess {
    pub target: Expression,
    pub field_id: FieldId,
}

#[derive(Debug)]
pub enum Literal {
    Int(i64),
    String(String),
    Bool(bool),
    Array(Vec<Expression>),
    Null,
}

#[derive(Debug)]
pub enum Intrinsic {
    IntOp(BinaryOperator, Expression, Expression),
    PrintLine(Expression),
}

#[derive(Debug)]
pub struct MethodCall {
    pub method_id: MethodId,
    pub arguments: Vec<Expression>,
}

impl Statement {
    /// The position that this statement may continue at, if it names one.
    pub open spec fn target(self) -> Option<usize> {
        match self {
            Statement::Branch(_, t) => Some(t),
            Statement::Jump(t) => Some(t),
            _ => None,
        }
    }
}

} // verus!
