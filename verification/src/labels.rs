//! Labels that carry a witness of the syntactic kind of the node they name.
//!
//! The witness is asserted by whoever builds the typed label; it is checked
//! again whenever a typed label is used to look a node up.

use vstd::prelude::*;
use crate::ast::Label;

verus! {

/// Label of a class declaration.
#[derive(Clone, Copy, Debug, PartialEq, Eq, Structural, Hash)]
pub struct ClassDecl(pub Label);

/// Label of a use of a type name.
#[derive(Clone, Copy, Debug, PartialEq, Eq, Structural, Hash)]
pub struct TypeUse(pub Label);

/// Label of an expression.
#[derive(Clone, Copy, Debug, PartialEq, Eq, Structural, Hash)]
pub struct Expression(pub Label);

/// Label of a method declaration.
#[derive(Clone, Copy, Debug, PartialEq, Eq, Structural, Hash)]
pub struct MethodDecl(pub Label);

/// Label of a method call.
#[derive(Clone, Copy, Debug, PartialEq, Eq, Structural, Hash)]
pub struct MethodUse(pub Label);

/// Label of a variable, parameter or field declaration.
#[derive(Clone, Copy, Debug, PartialEq, Eq, Structural, Hash)]
pub struct VarDecl(pub Label);

/// Label of a use of a variable or of a field.
#[derive(Clone, Copy, Debug, PartialEq, Eq, Structural, Hash)]
pub struct VarUse(pub Label);

impl Label {
    pub fn assert_as_class_decl(self) -> (r: ClassDecl)
        ensures
            r.0 == self,
    {
        ClassDecl(self)
    }

    pub fn assert_as_type_use(self) -> (r: TypeUse)
        ensures
            r.0 == self,
    {
        TypeUse(self)
    }

    pub fn assert_as_expression(self) -> (r: Expression)
        ensures
            r.0 == self,
    {
        Expression(self)
    }

    pub fn assert_as_method_decl(self) -> (r: MethodDecl)
        ensures
            r.0 == self,
    {
        MethodDecl(self)
    }

    pub fn assert_as_method_use(self) -> (r: MethodUse)
        ensures
            r.0 == self,
    {
        MethodUse(self)
    }

    pub fn assert_as_var_decl(self) -> (r: VarDecl)
        ensures
            r.0 == self,
    {
        VarDecl(self)
    }

    pub fn assert_as_var_use(self) -> (r: VarUse)
        ensures
            r.0 == self,
    {
        VarUse(self)
    }
}

impl ClassDecl {
    pub fn as_label(self) -> (r: Label)
        ensures
            r == self.0,
    {
        self.0
    }
}

impl TypeUse {
    pub fn as_label(self) -> (r: Label)
        ensures
            r == self.0,
    {
        self.0
    }
}

impl Expression {
    pub fn as_label(self) -> (r: Label)
        ensures
            r == self.0,
    {
        self.0
    }
}

impl MethodDecl {
    pub fn as_label(self) -> (r: Label)
        ensures
            r == self.0,
    {
        self.0
    }
}

impl MethodUse {
    pub fn as_label(self) -> (r: Label)
        ensures
            r == self.0,
    {
        self.0
    }
}

impl VarDecl {
    pub fn as_label(self) -> (r: Label)
        ensures
            r == self.0,
    {
        self.0
    }
}

impl VarUse {
    pub fn as_label(self) -> (r: Label)
        ensures
            r == self.0,
    {
        self.0
    }
}

} // verus!
