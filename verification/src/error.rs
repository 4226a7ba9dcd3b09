//! The ways in which a program can be rejected.

use vstd::prelude::*;

verus! {

/// Why a program was rejected. No source position is attached.
#[derive(Clone, Copy, Debug, PartialEq, Eq, Structural)]
pub enum CompileError {
    /// Two classes share a name.
    MultiClassDecl,
    /// Two static methods are called `Main`.
    MultiEntryPoint,
    /// No static method is called `Main`.
    NoEntryPoint,
    /// Two variables or parameters of one method share a name.
    DoubleVarDecl,
    /// A name that should denote a variable, a field or a method denotes
    /// none.
    UnresolvedName,
    /// A class is named that is not declared.
    UnresolvedClass,
    /// Two types that should agree do not.
    TypeMismatch,
    /// A member is accessed on a value whose type is not a class.
    NonClassFieldTarget,
    /// A method is called with the wrong number of arguments.
    ArityMismatch,
    /// `this` is used where there is no object: in a static method or in
    /// the initializer of a field.
    ThisInStaticMethod,
    /// Two nodes of the tree carry the same label.
    DuplicateLabel,
    /// A label was used that names no node of the kind asked for.
    UnknownNode,
}

} // verus!
