//! A handle on any labelled node of the syntax tree.

use vstd::prelude::*;
use crate::ast::{
    BinaryOp, ClassDecl, FieldAccess, FieldDecl, Identifier, Label, Literal, MethodCall,
    MethodDecl, New, This, VarDecl,
};

verus! {

/// A borrowed node, tagged with its kind.
#[derive(Clone, Copy)]
pub enum Node<'a> {
    ClassDecl(&'a ClassDecl),
    FieldDecl(&'a FieldDecl),
    MethodDecl(&'a MethodDecl),
    VarDecl(&'a VarDecl),
    FieldAccess(&'a FieldAccess),
    MethodCall(&'a MethodCall),
    Identifier(&'a Identifier),
    BinaryOp(&'a BinaryOp),
    Literal(&'a Literal),
    New(&'a New),
    This(&'a This),
}

impl<'a> Node<'a> {
    /// The label of the node.
    pub open spec fn spec_label(self) -> Label {
        match self {
            Node::ClassDecl(x) => x.label,
            Node::FieldDecl(x) => x.label,
            Node::MethodDecl(x) => x.label,
            Node::VarDecl(x) => x.label,
            Node::FieldAccess(x) => x.label,
            Node::MethodCall(x) => x.label,
            Node::Identifier(x) => x.label,
            Node::BinaryOp(x) => x.label,
            Node::Literal(x) => x.label,
            Node::New(x) => x.label,
            Node::This(x) => x.label,
        }
    }

    pub fn label(&self) -> (r: Label)
        ensures
            r == self.spec_label(),
    {
        match self {
            Node::ClassDecl(x) => x.label,
            Node::FieldDecl(x) => x.label,
            Node::MethodDecl(x) => x.label,
            Node::VarDecl(x) => x.label,
            Node::FieldAccess(x) => x.label,
            Node::MethodCall(x) => x.label,
            Node::Identifier(x) => x.label,
            Node::BinaryOp(x) => x.label,
            Node::Literal(x) => x.label,
            Node::New(x) => x.label,
            Node::This(x) => x.label,
        }
    }
}

} // verus!
