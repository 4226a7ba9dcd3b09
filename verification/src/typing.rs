//! The typing rules, stated over the tables of the preprocessing pass.
//!
//! The rules speak of types written out in full; which id a type has in
//! some table is no concern of theirs.

use vstd::prelude::*;
use crate::ast::{
    first_field, first_method, BinaryOperator, ClassDecl, Expression, FieldAccess, LiteralKind,
    MethodCall, MethodDecl, VarDecl,
};
use crate::error::CompileError;
use crate::node::Node;
use crate::preprocess::AstView;
use crate::type_map::{
    entered, id_after, resolve, resolve_class, table_after, table_with_class, terms_unify, Type,
    TypeTerm,
};

verus! {

/// The class declared at `label`, if a class is.
pub open spec fn class_at<'a>(ctx: AstView<'a>, label: u32) -> Option<&'a ClassDecl> {
    if ctx.nodes.contains_key(label) {
        match ctx.nodes[label] {
            Node::ClassDecl(cd) => Some(cd),
            _ => None,
        }
    } else {
        None
    }
}

/// The class whose members are reached through a target of type `target`.
pub open spec fn class_of_term<'a>(ctx: AstView<'a>, target: TypeTerm) -> Result<
    &'a ClassDecl,
    CompileError,
> {
    match target {
        TypeTerm::Class(label) => match class_at(ctx, label.0) {
            Some(cd) => Ok(cd),
            None => Err(CompileError::UnknownNode),
        },
        _ => Err(CompileError::NonClassFieldTarget),
    }
}

/// The class that the target of a static call names. The target is an
/// identifier that names no variable.
pub open spec fn class_named_by<'a>(ctx: AstView<'a>, target: &Expression) -> Result<
    &'a ClassDecl,
    CompileError,
> {
    match *target {
        Expression::Identifier(i) => if ctx.classes_by_name.contains_key(i.name@) {
            Ok(ctx.classes_by_name[i.name@])
        } else {
            Err(CompileError::UnresolvedClass)
        },
        _ => Err(CompileError::UnknownNode),
    }
}

/// The first fault among the declared types of `params[from..]`.
pub open spec fn params_resolved(ctx: AstView, params: Seq<VarDecl>, from: int) -> Result<
    (),
    CompileError,
>
    decreases params.len() - from,
{
    if 0 <= from < params.len() {
        match resolve(params[from].ty, ctx.classes_by_name) {
            Ok(_) => params_resolved(ctx, params, from + 1),
            Err(err) => Err(err),
        }
    } else {
        Ok(())
    }
}

/// The table of types after the declared types of `params[from..]` are
/// resolved in order, up to the first that has a fault.
pub open spec fn params_table(ctx: AstView, table: Seq<Type>, params: Seq<VarDecl>, from: int) -> Seq<
    Type,
>
    decreases params.len() - from,
{
    if 0 <= from < params.len() && resolve(params[from].ty, ctx.classes_by_name) is Ok {
        params_table(
            ctx,
            table_after(table, params[from].ty, ctx.classes_by_name),
            params,
            from + 1,
        )
    } else {
        table
    }
}

/// The type of a literal.
pub open spec fn literal_term(ctx: AstView, kind: LiteralKind) -> Result<
    Option<TypeTerm>,
    CompileError,
> {
    match kind {
        LiteralKind::Int(_) => Ok(Some(TypeTerm::Int)),
        LiteralKind::String(_) => Ok(Some(TypeTerm::String)),
        LiteralKind::Bool(_) => Ok(Some(TypeTerm::Bool)),
        LiteralKind::Null => Ok(Some(TypeTerm::Any)),
        LiteralKind::Array(ty, _) => match resolve(ty, ctx.classes_by_name) {
            Ok(t) => Ok(Some(TypeTerm::Array(Box::new(t)))),
            Err(err) => Err(err),
        },
    }
}

/// The type of a use of a name: the declared type of the variable it refers
/// to, or none where it refers to no variable.
pub open spec fn identifier_term(ctx: AstView, label: u32) -> Result<
    Option<TypeTerm>,
    CompileError,
> {
    if ctx.var_map.contains_key(label) {
        match resolve(ctx.var_map[label].ty, ctx.classes_by_name) {
            Ok(t) => Ok(Some(t)),
            Err(err) => Err(err),
        }
    } else {
        Ok(None)
    }
}

/// The type of the `this` at `label`: the class type of the class it stands
/// in.
pub open spec fn this_term(ctx: AstView, label: u32) -> Result<Option<TypeTerm>, CompileError> {
    if ctx.this_map.contains_key(label) {
        match resolve_class(ctx.this_map[label].name@, ctx.classes_by_name) {
            Ok(t) => Ok(Some(t)),
            Err(err) => Err(err),
        }
    } else {
        Err(CompileError::UnknownNode)
    }
}

/// The type of `new C()`.
pub open spec fn new_term(ctx: AstView, class_name: Seq<char>) -> Result<
    Option<TypeTerm>,
    CompileError,
> {
    match resolve_class(class_name, ctx.classes_by_name) {
        Ok(t) => Ok(Some(t)),
        Err(err) => Err(err),
    }
}

/// The type of a binary operation whose operands have the types `left` and
/// `right`: both must be integers.
pub open spec fn operation_term(operator: BinaryOperator, left: TypeTerm, right: TypeTerm) -> Result<
    Option<TypeTerm>,
    CompileError,
> {
    if left == TypeTerm::Int && right == TypeTerm::Int {
        Ok(
            Some(
                if operator == BinaryOperator::Eq {
                    TypeTerm::Bool
                } else {
                    TypeTerm::Int
                },
            ),
        )
    } else {
        Err(CompileError::TypeMismatch)
    }
}

/// The type of the field called `name` of a target of type `target`.
pub open spec fn member_term(ctx: AstView, target: TypeTerm, name: Seq<char>) -> Result<
    Option<TypeTerm>,
    CompileError,
> {
    match class_of_term(ctx, target) {
        Ok(cd) => match first_field(cd.items@, name, 0) {
            Some(fd) => match resolve(fd.ty, ctx.classes_by_name) {
                Ok(t) => Ok(Some(t)),
                Err(err) => Err(err),
            },
            None => Err(CompileError::UnresolvedName),
        },
        Err(err) => Err(err),
    }
}

/// The type that an operand has. An operand must have a type.
pub open spec fn operand_term(ctx: AstView, e: &Expression) -> Result<TypeTerm, CompileError>
    decreases e, 1int,
{
    match type_term(ctx, e) {
        Ok(Some(t)) => Ok(t),
        Ok(None) => Err(CompileError::UnresolvedName),
        Err(err) => Err(err),
    }
}

/// The first fault among the types of the arguments `args[from..]`.
pub open spec fn args_typed(ctx: AstView, args: Seq<Expression>, from: int) -> Result<
    (),
    CompileError,
>
    decreases args, args.len() - from,
{
    if 0 <= from < args.len() {
        match operand_term(ctx, &args[from]) {
            Ok(_) => args_typed(ctx, args, from + 1),
            Err(err) => Err(err),
        }
    } else {
        Ok(())
    }
}

/// Whether each of `args[from..]` agrees in type with the parameter at its
/// position.
pub open spec fn args_agree(ctx: AstView, params: Seq<VarDecl>, args: Seq<Expression>, from: int) -> bool
    decreases args, args.len() - from,
{
    if 0 <= from < args.len() && from < params.len() {
        &&& terms_unify(
            resolve(params[from].ty, ctx.classes_by_name).unwrap(),
            operand_term(ctx, &args[from]).unwrap(),
        )
        &&& args_agree(ctx, params, args, from + 1)
    } else {
        true
    }
}

/// The class in which the method of the call `mc` is looked up: the class
/// of the target's type or, where the target has no type, the class that
/// the target names.
pub open spec fn receiver_class<'a>(ctx: AstView<'a>, mc: &MethodCall) -> Result<
    &'a ClassDecl,
    CompileError,
>
    decreases mc, 0int,
{
    match type_term(ctx, &*mc.target) {
        Ok(Some(t)) => class_of_term(ctx, t),
        Ok(None) => class_named_by(ctx, &*mc.target),
        Err(err) => Err(err),
    }
}

/// The type of the call `mc` of the method `md`: the parameter types must
/// resolve, the arguments must have types, there must be as many arguments
/// as parameters, and each argument must agree with its parameter. The
/// checks are made in this order.
pub open spec fn call_term(ctx: AstView, mc: &MethodCall, md: &MethodDecl) -> Result<
    Option<TypeTerm>,
    CompileError,
>
    decreases mc, 0int,
{
    match params_resolved(ctx, md.params@, 0) {
        Ok(_) => match args_typed(ctx, mc.args@, 0) {
            Ok(_) => if md.params@.len() != mc.args@.len() {
                Err(CompileError::ArityMismatch)
            } else if !args_agree(ctx, md.params@, mc.args@, 0) {
                Err(CompileError::TypeMismatch)
            } else {
                match resolve(md.return_ty, ctx.classes_by_name) {
                    Ok(t) => Ok(Some(t)),
                    Err(err) => Err(err),
                }
            },
            Err(err) => Err(err),
        },
        Err(err) => Err(err),
    }
}

/// The type of the expression `e`, or none where `e` is an identifier that
/// refers to no variable, or the fault that `e` has.
///
/// `Console.WriteLine(..)` has type void whatever its arguments are.
pub open spec fn type_term(ctx: AstView, e: &Expression) -> Result<Option<TypeTerm>, CompileError>
    decreases e, 0int,
{
    match *e {
        Expression::Literal(l) => literal_term(ctx, l.kind),
        Expression::Identifier(i) => identifier_term(ctx, i.label.0),
        Expression::This(th) => this_term(ctx, th.label.0),
        Expression::New(n) => new_term(ctx, n.class_name@),
        Expression::BinaryOp(b) => match operand_term(ctx, &*b.left) {
            Ok(left) => match operand_term(ctx, &*b.right) {
                Ok(right) => operation_term(b.operator, left, right),
                Err(err) => Err(err),
            },
            Err(err) => Err(err),
        },
        Expression::FieldAccess(fa) => match operand_term(ctx, &*fa.target) {
            Ok(target) => member_term(ctx, target, fa.field_name@),
            Err(err) => Err(err),
        },
        Expression::MethodCall(mc) => if mc.spec_is_console_write_line() {
            Ok(Some(TypeTerm::Void))
        } else {
            match receiver_class(ctx, &mc) {
                Ok(cd) => match first_method(cd.items@, mc.method_name@, None, 0) {
                    Some(md) => call_term(ctx, &mc, &md),
                    None => Err(CompileError::UnresolvedName),
                },
                Err(err) => Err(err),
            }
        },
    }
}

/// The table of types after the type of a literal is found: an array
/// literal enters what its element type needs and then its own type, and no
/// other literal enters anything.
pub open spec fn literal_table(ctx: AstView, table: Seq<Type>, kind: LiteralKind) -> Seq<Type> {
    match kind {
        LiteralKind::Array(ty, _) => if resolve(ty, ctx.classes_by_name) is Ok {
            entered(
                table_after(table, ty, ctx.classes_by_name),
                Type::Array(id_after(table, ty, ctx.classes_by_name)),
            )
        } else {
            table
        },
        _ => table,
    }
}

/// The table of types after the type of the use of a name labelled `label`
/// is found.
pub open spec fn identifier_table(ctx: AstView, table: Seq<Type>, label: u32) -> Seq<Type> {
    if ctx.var_map.contains_key(label) {
        table_after(table, ctx.var_map[label].ty, ctx.classes_by_name)
    } else {
        table
    }
}

/// The table of types after the type of the `this` labelled `label` is
/// found.
pub open spec fn this_table(ctx: AstView, table: Seq<Type>, label: u32) -> Seq<Type> {
    if ctx.this_map.contains_key(label) {
        table_with_class(table, ctx.this_map[label].name@, ctx.classes_by_name)
    } else {
        table
    }
}

/// The table of types after the type of the field called `name` of a target
/// of type `target` is found.
pub open spec fn member_table(ctx: AstView, table: Seq<Type>, target: TypeTerm, name: Seq<char>) -> Seq<
    Type,
> {
    match class_of_term(ctx, target) {
        Ok(cd) => match first_field(cd.items@, name, 0) {
            Some(fd) => table_after(table, fd.ty, ctx.classes_by_name),
            None => table,
        },
        Err(_) => table,
    }
}

/// The table of types after the types of the arguments `args[from..]` are
/// found in order, up to the first that has a fault.
pub open spec fn args_table(ctx: AstView, table: Seq<Type>, args: Seq<Expression>, from: int) -> Seq<
    Type,
>
    decreases args, args.len() - from,
{
    if 0 <= from < args.len() {
        if operand_term(ctx, &args[from]) is Ok {
            args_table(ctx, typing_table(ctx, table, &args[from]), args, from + 1)
        } else {
            typing_table(ctx, table, &args[from])
        }
    } else {
        table
    }
}

/// The table of types after the call `mc` of the method `md` is checked:
/// the parameter types are resolved, the types of the arguments found, and
/// where every check is passed the return type is resolved.
pub open spec fn call_table(ctx: AstView, table: Seq<Type>, mc: &MethodCall, md: &MethodDecl) -> Seq<
    Type,
>
    decreases mc, 0int,
{
    let with_params = params_table(ctx, table, md.params@, 0);
    if params_resolved(ctx, md.params@, 0) is Err {
        with_params
    } else {
        let with_args = args_table(ctx, with_params, mc.args@, 0);
        if args_typed(ctx, mc.args@, 0) is Ok && md.params@.len() == mc.args@.len() && args_agree(
            ctx,
            md.params@,
            mc.args@,
            0,
        ) {
            table_after(with_args, md.return_ty, ctx.classes_by_name)
        } else {
            with_args
        }
    }
}

/// The table of types after the type of the expression `e` is found,
/// starting from `table`. The table gains the types that the rules resolve
/// on the way and that it does not hold yet, in the order in which the
/// rules resolve them, and no others.
pub open spec fn typing_table(ctx: AstView, table: Seq<Type>, e: &Expression) -> Seq<Type>
    decreases e, 0int,
{
    match *e {
        Expression::Literal(l) => literal_table(ctx, table, l.kind),
        Expression::Identifier(i) => identifier_table(ctx, table, i.label.0),
        Expression::This(th) => this_table(ctx, table, th.label.0),
        Expression::New(n) => table_with_class(table, n.class_name@, ctx.classes_by_name),
        Expression::BinaryOp(b) => {
            let with_left = typing_table(ctx, table, &*b.left);
            if operand_term(ctx, &*b.left) is Ok {
                typing_table(ctx, with_left, &*b.right)
            } else {
                with_left
            }
        },
        Expression::FieldAccess(fa) => {
            let with_target = typing_table(ctx, table, &*fa.target);
            match operand_term(ctx, &*fa.target) {
                Ok(target) => member_table(ctx, with_target, target, fa.field_name@),
                Err(_) => with_target,
            }
        },
        Expression::MethodCall(mc) => if mc.spec_is_console_write_line() {
            table
        } else {
            let with_target = typing_table(ctx, table, &*mc.target);
            match receiver_class(ctx, &mc) {
                Ok(cd) => match first_method(cd.items@, mc.method_name@, None, 0) {
                    Some(md) => call_table(ctx, with_target, &mc, &md),
                    None => with_target,
                },
                Err(_) => with_target,
            }
        },
    }
}

/// The table of types after the type of the expression at `node` is found.
pub open spec fn node_table(ctx: AstView, table: Seq<Type>, node: Node) -> Seq<Type> {
    match node {
        Node::FieldAccess(x) => typing_table(ctx, table, &Expression::FieldAccess(*x)),
        Node::MethodCall(x) => typing_table(ctx, table, &Expression::MethodCall(*x)),
        Node::Identifier(x) => typing_table(ctx, table, &Expression::Identifier(*x)),
        Node::BinaryOp(x) => typing_table(ctx, table, &Expression::BinaryOp(*x)),
        Node::Literal(x) => typing_table(ctx, table, &Expression::Literal(*x)),
        Node::New(x) => typing_table(ctx, table, &Expression::New(*x)),
        Node::This(x) => typing_table(ctx, table, &Expression::This(*x)),
        _ => table,
    }
}

/// The table of types after the question about the type of the expression
/// labelled `label` is answered anew.
pub open spec fn label_table(ctx: AstView, table: Seq<Type>, label: u32) -> Seq<Type> {
    if ctx.nodes.contains_key(label) {
        node_table(ctx, table, ctx.nodes[label])
    } else {
        table
    }
}

/// The table of types after the question about the field that the access
/// labelled `label` reaches is answered anew: the table after the type of
/// the target of the access is found.
pub open spec fn field_query_table(ctx: AstView, table: Seq<Type>, label: u32) -> Seq<Type> {
    if ctx.nodes.contains_key(label) {
        match ctx.nodes[label] {
            Node::FieldAccess(fa) => typing_table(ctx, table, &*fa.target),
            _ => table,
        }
    } else {
        table
    }
}

/// The table of types after the question about the method that the call
/// labelled `label` calls is answered anew: the table after the type of
/// the target of the call is found.
pub open spec fn method_query_table(ctx: AstView, table: Seq<Type>, label: u32) -> Seq<Type> {
    if ctx.nodes.contains_key(label) {
        match ctx.nodes[label] {
            Node::MethodCall(mc) => typing_table(ctx, table, &*mc.target),
            _ => table,
        }
    } else {
        table
    }
}

/// The table of types after the call `mc` is checked where the types of
/// its target and of its arguments are known already: the parameter types
/// are resolved and, where every check is passed, the return type.
pub open spec fn known_call_table(ctx: AstView, table: Seq<Type>, mc: &MethodCall) -> Seq<Type> {
    if mc.spec_is_console_write_line() {
        table
    } else {
        match receiver_class(ctx, mc) {
            Ok(cd) => match first_method(cd.items@, mc.method_name@, None, 0) {
                Some(md) => {
                    let with_params = params_table(ctx, table, md.params@, 0);
                    if params_resolved(ctx, md.params@, 0) is Ok && args_typed(
                        ctx,
                        mc.args@,
                        0,
                    ) is Ok && md.params@.len() == mc.args@.len() && args_agree(
                        ctx,
                        md.params@,
                        mc.args@,
                        0,
                    ) {
                        table_after(with_params, md.return_ty, ctx.classes_by_name)
                    } else {
                        with_params
                    }
                },
                None => table,
            },
            Err(_) => table,
        }
    }
}

/// The type of the expression at `node`. A node that is no expression has
/// none.
pub open spec fn node_term(ctx: AstView, node: Node) -> Result<Option<TypeTerm>, CompileError> {
    match node {
        Node::FieldAccess(x) => type_term(ctx, &Expression::FieldAccess(*x)),
        Node::MethodCall(x) => type_term(ctx, &Expression::MethodCall(*x)),
        Node::Identifier(x) => type_term(ctx, &Expression::Identifier(*x)),
        Node::BinaryOp(x) => type_term(ctx, &Expression::BinaryOp(*x)),
        Node::Literal(x) => type_term(ctx, &Expression::Literal(*x)),
        Node::New(x) => type_term(ctx, &Expression::New(*x)),
        Node::This(x) => type_term(ctx, &Expression::This(*x)),
        _ => Err(CompileError::UnknownNode),
    }
}

/// The type of the expression labelled `label`.
pub open spec fn label_term(ctx: AstView, label: u32) -> Result<Option<TypeTerm>, CompileError> {
    if ctx.nodes.contains_key(label) {
        node_term(ctx, ctx.nodes[label])
    } else {
        Err(CompileError::UnknownNode)
    }
}

/// The declaration of the field that the access `fa` reaches.
pub open spec fn field_of(ctx: AstView, fa: &FieldAccess) -> Result<crate::ast::Label, CompileError> {
    match operand_term(ctx, &*fa.target) {
        Ok(target) => match class_of_term(ctx, target) {
            Ok(cd) => match first_field(cd.items@, fa.field_name@, 0) {
                Some(fd) => Ok(fd.label),
                None => Err(CompileError::UnresolvedName),
            },
            Err(err) => Err(err),
        },
        Err(err) => Err(err),
    }
}

/// The declaration of the method that the call `mc` calls: an instance
/// method where the target has a type, a static one where it names a class.
pub open spec fn method_of(ctx: AstView, mc: &MethodCall) -> Result<crate::ast::Label, CompileError> {
    match type_term(ctx, &*mc.target) {
        Ok(target) => match receiver_class(ctx, mc) {
            Ok(cd) => match first_method(cd.items@, mc.method_name@, Some(target is None), 0) {
                Some(md) => Ok(md.label),
                None => Err(CompileError::UnresolvedName),
            },
            Err(err) => Err(err),
        },
        Err(err) => Err(err),
    }
}

/// The declaration of the variable that `label` names: `label` itself where
/// it is the label of a declaration, else what the use at `label` refers to.
pub open spec fn var_decl_of(ctx: AstView, label: u32) -> Result<crate::ast::Label, CompileError> {
    if ctx.nodes.contains_key(label) && ctx.nodes[label] is VarDecl {
        Ok(crate::ast::Label(label))
    } else if ctx.var_map.contains_key(label) {
        Ok(ctx.var_map[label].label)
    } else {
        Err(CompileError::UnresolvedName)
    }
}

/// The declaration of the field that the access labelled `label` reaches.
pub open spec fn field_at(ctx: AstView, label: u32) -> Result<crate::ast::Label, CompileError> {
    if ctx.nodes.contains_key(label) {
        match ctx.nodes[label] {
            Node::FieldAccess(fa) => field_of(ctx, fa),
            _ => Err(CompileError::UnknownNode),
        }
    } else {
        Err(CompileError::UnknownNode)
    }
}

/// The declaration of the method that the call labelled `label` calls.
pub open spec fn method_at(ctx: AstView, label: u32) -> Result<crate::ast::Label, CompileError> {
    if ctx.nodes.contains_key(label) {
        match ctx.nodes[label] {
            Node::MethodCall(mc) => method_of(ctx, mc),
            _ => Err(CompileError::UnknownNode),
        }
    } else {
        Err(CompileError::UnknownNode)
    }
}

/// The method declared at `label`, if a method is.
pub open spec fn method_decl_at<'a>(ctx: AstView<'a>, label: u32) -> Option<&'a MethodDecl> {
    if ctx.nodes.contains_key(label) {
        match ctx.nodes[label] {
            Node::MethodDecl(md) => Some(md),
            _ => None,
        }
    } else {
        None
    }
}

/// The declared type of the variable, parameter or field declared at
/// `label`.
pub open spec fn declared_type_at(ctx: AstView, label: u32) -> Result<TypeTerm, CompileError> {
    if ctx.nodes.contains_key(label) {
        match ctx.nodes[label] {
            Node::VarDecl(vd) => resolve(vd.ty, ctx.classes_by_name),
            Node::FieldDecl(fd) => resolve(fd.ty, ctx.classes_by_name),
            _ => Err(CompileError::UnknownNode),
        }
    } else {
        Err(CompileError::UnknownNode)
    }
}

/// The type that the variable, parameter or field declared at `label` is
/// declared with, as it is written, if such a declaration stands there.
pub open spec fn written_type_at(ctx: AstView, label: u32) -> Option<crate::ast::Type> {
    if ctx.nodes.contains_key(label) {
        match ctx.nodes[label] {
            Node::VarDecl(vd) => Some(vd.ty),
            Node::FieldDecl(fd) => Some(fd.ty),
            _ => None,
        }
    } else {
        None
    }
}

/// The declared return type of the method declared at `label`.
pub open spec fn return_type_at(ctx: AstView, label: u32) -> Result<TypeTerm, CompileError> {
    match method_decl_at(ctx, label) {
        Some(md) => resolve(md.return_ty, ctx.classes_by_name),
        None => Err(CompileError::UnknownNode),
    }
}

} // verus!
