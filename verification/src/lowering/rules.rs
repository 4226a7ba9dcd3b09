//! What lowering makes of a program, stated over the tables of the
//! preprocessing pass and the typing rules.
//!
//! For each kind of syntax there is the fault that stops its lowering, if
//! any, and a description of the code that stands for it where there is no
//! fault.

use vstd::prelude::*;
use crate::ast::{
    ClassDecl, ClassItem, Expression, LiteralKind, MethodDecl, Program, Statement, VarDecl,
};
use crate::error::CompileError;
use crate::ir;
use crate::ir::{FieldId, MethodId, VarId};
use crate::preprocess::AstView;
use crate::type_map::{terms_unify, TypeTerm};
use crate::typing::{
    declared_type_at, field_at, label_term, method_at, method_decl_at, return_type_at,
    var_decl_of,
};
use crate::var_tracker::Scope;

verus! {

/// The ids that lowering has given to the methods and fields of a program,
/// by the labels of their declarations.
pub struct Layout {
    pub methods: Map<u32, MethodId>,
    pub fields: Map<u32, FieldId>,
}

/// What stays the same while the methods of a program are lowered.
pub struct Env<'a> {
    pub ctx: AstView<'a>,
    pub layout: Layout,
}

/// The first of two faults.
pub open spec fn or_else(first: Option<CompileError>, second: Option<CompileError>) -> Option<
    CompileError,
> {
    match first {
        Some(err) => Some(err),
        None => second,
    }
}

/// The fault of a result, if it is one.
pub open spec fn fault_of<T>(r: Result<T, CompileError>) -> Option<CompileError> {
    match r {
        Ok(_) => None,
        Err(err) => Some(err),
    }
}

/// The type of the operand labelled `label`; an operand must have a type.
pub open spec fn operand_at(ctx: AstView, label: u32) -> Result<TypeTerm, CompileError> {
    match label_term(ctx, label) {
        Ok(Some(t)) => Ok(t),
        Ok(None) => Err(CompileError::UnresolvedName),
        Err(err) => Err(err),
    }
}

/// The method that the call labelled `label` calls, with its id.
pub open spec fn callee(env: Env, label: u32) -> Result<(MethodId, bool), CompileError> {
    match method_at(env.ctx, label) {
        Ok(l) => match method_decl_at(env.ctx, l.0) {
            Some(md) => if env.layout.methods.contains_key(l.0) {
                Ok((env.layout.methods[l.0], md.is_static))
            } else {
                Err(CompileError::UnknownNode)
            },
            None => Err(CompileError::UnknownNode),
        },
        Err(err) => Err(err),
    }
}

/// The id of the field that the access labelled `label` reaches.
pub open spec fn accessed_field(env: Env, label: u32) -> Result<FieldId, CompileError> {
    match field_at(env.ctx, label) {
        Ok(l) => if env.layout.fields.contains_key(l.0) {
            Ok(env.layout.fields[l.0])
        } else {
            Err(CompileError::UnknownNode)
        },
        Err(err) => Err(err),
    }
}

/// The id of the variable that the use labelled `label` refers to.
pub open spec fn variable(env: Env, scope: Scope, label: u32) -> Result<VarId, CompileError> {
    match var_decl_of(env.ctx, label) {
        Ok(l) => if scope.vars.contains_key(l.0) {
            Ok(scope.vars[l.0])
        } else {
            Err(CompileError::UnresolvedName)
        },
        Err(err) => Err(err),
    }
}

/// The fault that stops the lowering of the expression `e` in a method that
/// is static or not as `is_static` says.
///
/// An expression is type checked before it is lowered, and so is each of
/// its parts when its turn comes.
pub open spec fn expression_fault(env: Env, scope: Scope, is_static: bool, e: &Expression) -> Option<
    CompileError,
>
    decreases e,
{
    match label_term(env.ctx, e.spec_label().0) {
        Err(err) => Some(err),
        Ok(_) => match *e {
            Expression::BinaryOp(b) => or_else(
                expression_fault(env, scope, is_static, &*b.left),
                expression_fault(env, scope, is_static, &*b.right),
            ),
            Expression::FieldAccess(fa) => or_else(
                expression_fault(env, scope, is_static, &*fa.target),
                fault_of(accessed_field(env, fa.label.0)),
            ),
            Expression::Literal(l) => match l.kind {
                LiteralKind::Array(_, elements) => expressions_fault(
                    env,
                    scope,
                    is_static,
                    elements@,
                    0,
                ),
                _ => None,
            },
            Expression::MethodCall(mc) => if mc.spec_is_console_write_line() {
                expressions_fault(env, scope, is_static, mc.args@, 0)
            } else {
                match callee(env, mc.label.0) {
                    Ok((_, callee_is_static)) => or_else(
                        if callee_is_static {
                            None
                        } else {
                            expression_fault(env, scope, is_static, &*mc.target)
                        },
                        expressions_fault(env, scope, is_static, mc.args@, 0),
                    ),
                    Err(err) => Some(err),
                }
            },
            Expression::New(n) => if env.ctx.classes_by_name.contains_key(n.class_name@) {
                None
            } else {
                Some(CompileError::UnresolvedClass)
            },
            Expression::Identifier(i) => fault_of(variable(env, scope, i.label.0)),
            Expression::This(_) => if is_static {
                Some(CompileError::ThisInStaticMethod)
            } else {
                None
            },
        },
    }
}

/// The first fault among `es[from..]`.
pub open spec fn expressions_fault(
    env: Env,
    scope: Scope,
    is_static: bool,
    es: Seq<Expression>,
    from: int,
) -> Option<CompileError>
    decreases es, es.len() - from,
{
    if 0 <= from < es.len() {
        or_else(
            expression_fault(env, scope, is_static, &es[from]),
            expressions_fault(env, scope, is_static, es, from + 1),
        )
    } else {
        None
    }
}

/// Whether `out` is the code for the expression `e`.
///
/// A binary operation becomes an intrinsic; a call of an instance method
/// becomes a call whose first argument is the target; a call of
/// `Console.WriteLine` becomes a call of method 0; an identifier becomes a
/// read of its variable, and `this` a read of variable 0.
pub open spec fn expression_lowered(env: Env, scope: Scope, e: &Expression, out: ir::Expression) -> bool
    decreases e,
{
    match *e {
        Expression::BinaryOp(b) => {
            &&& out matches ir::Expression::Intrinsic(intrinsic)
            &&& *intrinsic matches ir::Intrinsic::IntOp(op, left, right)
            &&& op == b.operator
            &&& expression_lowered(env, scope, &*b.left, left)
            &&& expression_lowered(env, scope, &*b.right, right)
        },
        Expression::FieldAccess(fa) => {
            &&& out matches ir::Expression::FieldAccess(access)
            &&& expression_lowered(env, scope, &*fa.target, access.target)
            &&& accessed_field(env, fa.label.0) == Ok::<FieldId, CompileError>(access.field_id)
        },
        Expression::Literal(l) => {
            &&& out matches ir::Expression::Literal(lit)
            &&& match l.kind {
                LiteralKind::Int(i) => lit == ir::Literal::Int(i),
                LiteralKind::String(s) => lit matches ir::Literal::String(t) && t@ == s@,
                LiteralKind::Bool(b) => lit == ir::Literal::Bool(b),
                LiteralKind::Null => lit == ir::Literal::Null,
                LiteralKind::Array(_, elements) => {
                    &&& lit matches ir::Literal::Array(outs)
                    &&& outs@.len() == elements@.len()
                    &&& expressions_lowered(env, scope, elements@, outs@, 0, 0)
                },
            }
        },
        Expression::MethodCall(mc) => {
            &&& out matches ir::Expression::MethodCall(call)
            &&& if mc.spec_is_console_write_line() {
                &&& call.method_id == MethodId(0)
                &&& call.arguments@.len() == mc.args@.len()
                &&& expressions_lowered(env, scope, mc.args@, call.arguments@, 0, 0)
            } else {
                match callee(env, mc.label.0) {
                    Ok((id, callee_is_static)) => {
                        &&& call.method_id == id
                        &&& if callee_is_static {
                            &&& call.arguments@.len() == mc.args@.len()
                            &&& expressions_lowered(env, scope, mc.args@, call.arguments@, 0, 0)
                        } else {
                            &&& call.arguments@.len() == mc.args@.len() + 1
                            &&& expression_lowered(env, scope, &*mc.target, call.arguments@[0])
                            &&& expressions_lowered(env, scope, mc.args@, call.arguments@, 0, 1)
                        }
                    },
                    Err(_) => false,
                }
            }
        },
        Expression::New(n) => {
            &&& out matches ir::Expression::NewObject(class)
            &&& env.ctx.classes_by_name.contains_key(n.class_name@)
            &&& class.0 == env.ctx.classes_by_name[n.class_name@].label
        },
        Expression::Identifier(i) => {
            &&& out matches ir::Expression::VarRead(id)
            &&& variable(env, scope, i.label.0) == Ok::<VarId, CompileError>(id)
        },
        Expression::This(_) => out == ir::Expression::VarRead(VarId(0)),
    }
}

/// Whether, for every `k` from `from` on, `outs[k + shift]` is the code for
/// `es[k]`.
pub open spec fn expressions_lowered(
    env: Env,
    scope: Scope,
    es: Seq<Expression>,
    outs: Seq<ir::Expression>,
    from: int,
    shift: int,
) -> bool
    decreases es, es.len() - from,
{
    if 0 <= from < es.len() {
        &&& 0 <= from + shift < outs.len()
        &&& expression_lowered(env, scope, &es[from], outs[from + shift])
        &&& expressions_lowered(env, scope, es, outs, from + 1, shift)
    } else {
        true
    }
}

/// The number of statements that stand for the statement `s`.
pub open spec fn emitted(s: &Statement) -> nat
    decreases s,
{
    match *s {
        Statement::VarDecl(vd) => if vd.expr is Some {
            2
        } else {
            1
        },
        Statement::IfThenElse(ite) => 2 + block_emitted(ite.else_block@, 0) + block_emitted(
            ite.then_block@,
            0,
        ),
        _ => 1,
    }
}

/// The number of statements that stand for `ss[from..]`.
pub open spec fn block_emitted(ss: Seq<Statement>, from: int) -> nat
    decreases ss, ss.len() - from,
{
    if 0 <= from < ss.len() {
        emitted(&ss[from]) + block_emitted(ss, from + 1)
    } else {
        0
    }
}

/// The numbering of the variables after the statement `s` is lowered. Of a
/// conditional the `else` block is lowered before the `then` block.
pub open spec fn scope_after(scope: Scope, s: &Statement) -> Scope
    decreases s,
{
    match *s {
        Statement::VarDecl(vd) => scope.with_var(vd.label),
        Statement::IfThenElse(ite) => block_scope_after(
            block_scope_after(scope, ite.else_block@, 0),
            ite.then_block@,
            0,
        ),
        _ => scope,
    }
}

/// The numbering of the variables after `ss[from..]` are lowered.
pub open spec fn block_scope_after(scope: Scope, ss: Seq<Statement>, from: int) -> Scope
    decreases ss, ss.len() - from,
{
    if 0 <= from < ss.len() {
        block_scope_after(scope_after(scope, &ss[from]), ss, from + 1)
    } else {
        scope
    }
}

/// The fault that stops the lowering of an assignment of `e` to the
/// variable that `target` names: the variable must be declared, its type
/// and the type of `e` must agree, `e` must lower, and the variable must
/// have an id.
pub open spec fn assignment_fault(
    env: Env,
    scope: Scope,
    is_static: bool,
    target: u32,
    e: &Expression,
) -> Option<CompileError> {
    match var_decl_of(env.ctx, target) {
        Err(err) => Some(err),
        Ok(decl) => match declared_type_at(env.ctx, decl.0) {
            Err(err) => Some(err),
            Ok(var_type) => match operand_at(env.ctx, e.spec_label().0) {
                Err(err) => Some(err),
                Ok(expr_type) => if !terms_unify(var_type, expr_type) {
                    Some(CompileError::TypeMismatch)
                } else {
                    or_else(
                        expression_fault(env, scope, is_static, e),
                        fault_of(variable(env, scope, target)),
                    )
                },
            },
        },
    }
}

/// Whether `out` is the code for an assignment of `e` to the variable that
/// `target` names.
pub open spec fn assignment_lowered(
    env: Env,
    scope: Scope,
    target: u32,
    e: &Expression,
    out: ir::Assign,
) -> bool {
    &&& variable(env, scope, target) == Ok::<VarId, CompileError>(out.var_id)
    &&& expression_lowered(env, scope, e, out.value)
}

/// The fault that stops the lowering of the statement `s` of the method
/// `md`.
///
/// What is returned must agree with the declared return type, void where
/// nothing is returned. The condition of a conditional must agree with
/// bool; its `else` block is lowered first, then its `then` block, and its
/// condition last.
pub open spec fn statement_fault(env: Env, md: &MethodDecl, scope: Scope, s: &Statement) -> Option<
    CompileError,
>
    decreases s,
{
    match *s {
        Statement::Assign(a) => assignment_fault(env, scope, md.is_static, a.label.0, &a.expr),
        Statement::Expression(e) => expression_fault(env, scope, md.is_static, &e),
        Statement::Return(r) => match return_type_at(env.ctx, md.label.0) {
            Err(err) => Some(err),
            Ok(return_type) => match r.expr {
                Some(e) => match operand_at(env.ctx, e.spec_label().0) {
                    Err(err) => Some(err),
                    Ok(expr_type) => if !terms_unify(return_type, expr_type) {
                        Some(CompileError::TypeMismatch)
                    } else {
                        expression_fault(env, scope, md.is_static, &e)
                    },
                },
                None => if !terms_unify(return_type, TypeTerm::Void) {
                    Some(CompileError::TypeMismatch)
                } else {
                    None
                },
            },
        },
        Statement::VarDecl(vd) => match vd.expr {
            Some(e) => assignment_fault(
                env,
                scope.with_var(vd.label),
                md.is_static,
                vd.label.0,
                &e,
            ),
            None => None,
        },
        Statement::IfThenElse(ite) => match operand_at(env.ctx, ite.condition.spec_label().0) {
            Err(err) => Some(err),
            Ok(condition_type) => if !terms_unify(condition_type, TypeTerm::Bool) {
                Some(CompileError::TypeMismatch)
            } else {
                let after_else = block_scope_after(scope, ite.else_block@, 0);
                let after_both = block_scope_after(after_else, ite.then_block@, 0);
                or_else(
                    block_fault(env, md, scope, ite.else_block@, 0),
                    or_else(
                        block_fault(env, md, after_else, ite.then_block@, 0),
                        expression_fault(env, after_both, md.is_static, &ite.condition),
                    ),
                )
            },
        },
    }
}

/// The first fault among `ss[from..]`.
pub open spec fn block_fault(env: Env, md: &MethodDecl, scope: Scope, ss: Seq<Statement>, from: int) -> Option<
    CompileError,
>
    decreases ss, ss.len() - from,
{
    if 0 <= from < ss.len() {
        or_else(
            statement_fault(env, md, scope, &ss[from]),
            block_fault(env, md, scope_after(scope, &ss[from]), ss, from + 1),
        )
    } else {
        None
    }
}

/// Whether the statements of `body` from position `at` on are the code for
/// the statement `s`.
///
/// A declaration becomes a `VarDecl` and, where it has an initializer, an
/// assignment. A conditional becomes a branch to the code of the `then`
/// block, the code of the `else` block, a jump past the code of the `then`
/// block, and the code of the `then` block.
pub open spec fn statement_lowered(
    env: Env,
    md: &MethodDecl,
    scope: Scope,
    body: Seq<ir::Statement>,
    at: int,
    s: &Statement,
) -> bool
    decreases s,
{
    &&& 0 <= at
    &&& at + emitted(s) <= body.len()
    &&& match *s {
        Statement::Assign(a) => {
            &&& body[at] matches ir::Statement::Assign(out)
            &&& assignment_lowered(env, scope, a.label.0, &a.expr, out)
        },
        Statement::Expression(e) => {
            &&& body[at] matches ir::Statement::Expression(out)
            &&& expression_lowered(env, scope, &e, out)
        },
        Statement::Return(r) => {
            &&& body[at] matches ir::Statement::Return(out)
            &&& match r.expr {
                Some(e) => out matches Some(value) && expression_lowered(env, scope, &e, value),
                None => out is None,
            }
        },
        Statement::VarDecl(vd) => {
            &&& body[at] is VarDecl
            &&& match vd.expr {
                Some(e) => {
                    &&& body[at + 1] matches ir::Statement::Assign(out)
                    &&& assignment_lowered(env, scope.with_var(vd.label), vd.label.0, &e, out)
                },
                None => true,
            }
        },
        Statement::IfThenElse(ite) => {
            let else_len = block_emitted(ite.else_block@, 0);
            let then_len = block_emitted(ite.then_block@, 0);
            let after_else = block_scope_after(scope, ite.else_block@, 0);
            let after_both = block_scope_after(after_else, ite.then_block@, 0);
            &&& body[at] matches ir::Statement::Branch(condition, then_addr)
            &&& then_addr == at + else_len + 2
            &&& expression_lowered(env, after_both, &ite.condition, condition)
            &&& block_lowered(env, md, scope, body, at + 1, ite.else_block@, 0)
            &&& body[at + else_len + 1] matches ir::Statement::Jump(end_addr)
            &&& end_addr == at + else_len + then_len + 2
            &&& block_lowered(env, md, after_else, body, at + else_len + 2, ite.then_block@, 0)
        },
    }
}

/// Whether the statements of `body` from position `at` on are the code for
/// `ss[from..]`.
pub open spec fn block_lowered(
    env: Env,
    md: &MethodDecl,
    scope: Scope,
    body: Seq<ir::Statement>,
    at: int,
    ss: Seq<Statement>,
    from: int,
) -> bool
    decreases ss, ss.len() - from,
{
    if 0 <= from < ss.len() {
        &&& statement_lowered(env, md, scope, body, at, &ss[from])
        &&& block_lowered(
            env,
            md,
            scope_after(scope, &ss[from]),
            body,
            at + emitted(&ss[from]),
            ss,
            from + 1,
        )
    } else {
        0 <= at <= body.len()
    }
}

/// Whether two bodies hold the same statements at the positions from `from`
/// up to `to`.
pub open spec fn same_between(a: Seq<ir::Statement>, b: Seq<ir::Statement>, from: int, to: int) -> bool {
    &&& to <= a.len()
    &&& to <= b.len()
    &&& forall|i: int| from <= i < to ==> #[trigger] a[i] == b[i]
}

/// Whether a body is the code for a statement depends only on the positions
/// that the code takes.
pub proof fn lemma_statement_frame(
    env: Env,
    md: &MethodDecl,
    scope: Scope,
    a: Seq<ir::Statement>,
    b: Seq<ir::Statement>,
    at: int,
    s: &Statement,
)
    requires
        statement_lowered(env, md, scope, a, at, s),
        same_between(a, b, at, at + emitted(s)),
    ensures
        statement_lowered(env, md, scope, b, at, s),
    decreases s,
{
    match *s {
        Statement::IfThenElse(ite) => {
            let else_len = block_emitted(ite.else_block@, 0);
            let after_else = block_scope_after(scope, ite.else_block@, 0);
            assert(a[at] == b[at]);
            assert(a[at + else_len + 1] == b[at + else_len + 1]);
            lemma_block_frame(env, md, scope, a, b, at + 1, ite.else_block@, 0);
            lemma_block_frame(env, md, after_else, a, b, at + else_len + 2, ite.then_block@, 0);
        },
        Statement::VarDecl(vd) => {
            assert(a[at] == b[at]);
            if vd.expr is Some {
                assert(a[at + 1] == b[at + 1]);
            }
        },
        _ => {
            assert(a[at] == b[at]);
        },
    }
}

/// Whether a body is the code for a block depends only on the positions
/// that the code takes.
pub proof fn lemma_block_frame(
    env: Env,
    md: &MethodDecl,
    scope: Scope,
    a: Seq<ir::Statement>,
    b: Seq<ir::Statement>,
    at: int,
    ss: Seq<Statement>,
    from: int,
)
    requires
        0 <= from,
        block_lowered(env, md, scope, a, at, ss, from),
        same_between(a, b, at, at + block_emitted(ss, from)),
    ensures
        block_lowered(env, md, scope, b, at, ss, from),
    decreases ss, ss.len() - from,
{
    if from < ss.len() {
        lemma_statement_frame(env, md, scope, a, b, at, &ss[from]);
        lemma_block_frame(
            env,
            md,
            scope_after(scope, &ss[from]),
            a,
            b,
            at + emitted(&ss[from]),
            ss,
            from + 1,
        );
    }
}

/// Whether `after` is `before` with `n` statements put behind it.
pub open spec fn appended(before: Seq<ir::Statement>, after: Seq<ir::Statement>, n: nat) -> bool {
    &&& after.len() == before.len() + n
    &&& forall|i: int| 0 <= i < before.len() ==> #[trigger] after[i] == before[i]
}

/// Whether the statements of `body` from `from` up to `to` hold no
/// placeholder and name no position outside `from..=to`.
pub open spec fn settled_between(body: Seq<ir::Statement>, from: int, to: int) -> bool {
    &&& 0 <= from <= to <= body.len()
    &&& forall|i: int|
        from <= i < to ==> !((#[trigger] body[i]) is Nop) && (body[i].target() matches Some(t)
            ==> from <= t <= to)
}

/// The numbering after the parameters `params[from..]` take their slots,
/// in order.
pub open spec fn params_scope(scope: Scope, params: Seq<VarDecl>, from: int) -> Scope
    decreases params.len() - from,
{
    if 0 <= from < params.len() {
        params_scope(scope.with_var(params[from].label), params, from + 1)
    } else {
        scope
    }
}

/// The numbering with which the body of the method `md` starts: slot 0 is
/// kept for the receiver unless the method is static, and the parameters
/// take the slots that follow.
pub open spec fn method_scope(md: &MethodDecl) -> Scope {
    params_scope(
        if md.is_static {
            Scope::empty()
        } else {
            Scope::empty().with_this()
        },
        md.params@,
        0,
    )
}

/// The fault that stops the lowering of the method `md`.
pub open spec fn method_fault(env: Env, md: &MethodDecl) -> Option<CompileError> {
    block_fault(env, md, method_scope(md), md.body@, 0)
}

/// Whether `out` is the code for the method `md`.
pub open spec fn method_lowered(env: Env, md: &MethodDecl, out: ir::Method) -> bool {
    &&& out.body@.len() == block_emitted(md.body@, 0)
    &&& block_lowered(env, md, method_scope(md), out.body@, 0, md.body@, 0)
}

/// Whether `m` is the built-in method that prints its argument.
pub open spec fn is_write_line(m: ir::Method) -> bool {
    &&& m.body@.len() == 1
    &&& m.body@[0] matches ir::Statement::Expression(e)
    &&& e matches ir::Expression::Intrinsic(intrinsic)
    &&& *intrinsic matches ir::Intrinsic::PrintLine(argument)
    &&& argument == ir::Expression::VarRead(VarId(0))
}

/// The ids of the first `upto` of `methods`: the method at position `k`
/// has the id `k + 1`, since 0 is the id of the built-in method.
pub open spec fn method_ids(methods: Seq<&MethodDecl>, upto: int) -> Map<u32, MethodId>
    decreases upto,
{
    if 0 < upto <= methods.len() {
        method_ids(methods, upto - 1).insert(methods[upto - 1].label.0, MethodId(upto as usize))
    } else {
        Map::empty()
    }
}

/// The names of the fields among the first `upto` of `items`, in order.
pub open spec fn field_names(items: Seq<ClassItem>, upto: int) -> Seq<Seq<char>>
    decreases upto,
{
    if 0 < upto <= items.len() {
        match items[upto - 1] {
            ClassItem::FieldDecl(fd) => field_names(items, upto - 1).push(fd.name@),
            _ => field_names(items, upto - 1),
        }
    } else {
        Seq::empty()
    }
}

/// The ids in `base`, and the ids of the fields among the first `upto` of
/// `items`: a field has for id the number of fields before it in its class.
pub open spec fn class_field_ids(base: Map<u32, FieldId>, items: Seq<ClassItem>, upto: int) -> Map<
    u32,
    FieldId,
>
    decreases upto,
{
    if 0 < upto <= items.len() {
        match items[upto - 1] {
            ClassItem::FieldDecl(fd) => class_field_ids(base, items, upto - 1).insert(
                fd.label.0,
                FieldId(field_names(items, upto - 1).len() as usize),
            ),
            _ => class_field_ids(base, items, upto - 1),
        }
    } else {
        base
    }
}

/// The ids of the fields of the first `upto` of `classes`.
pub open spec fn field_ids(classes: Seq<&ClassDecl>, upto: int) -> Map<u32, FieldId>
    decreases upto,
{
    if 0 < upto <= classes.len() {
        class_field_ids(
            field_ids(classes, upto - 1),
            classes[upto - 1].items@,
            classes[upto - 1].items@.len() as int,
        )
    } else {
        Map::empty()
    }
}

/// What is kept of a class for printing: its name and the names of its
/// fields.
pub struct ClassSummary {
    pub name: Seq<char>,
    pub field_names: Seq<Seq<char>>,
}

/// What is kept of the first `upto` of `classes`, by the labels of their
/// declarations.
pub open spec fn class_summaries(classes: Seq<&ClassDecl>, upto: int) -> Map<u32, ClassSummary>
    decreases upto,
{
    if 0 < upto <= classes.len() {
        class_summaries(classes, upto - 1).insert(
            classes[upto - 1].label.0,
            ClassSummary {
                name: classes[upto - 1].name@,
                field_names: field_names(
                    classes[upto - 1].items@,
                    classes[upto - 1].items@.len() as int,
                ),
            },
        )
    } else {
        Map::empty()
    }
}

/// The ids of the methods and fields of the program `p`.
pub open spec fn program_layout(p: &Program) -> Layout {
    Layout {
        methods: method_ids(p.spec_methods(), p.spec_methods().len() as int),
        fields: field_ids(p.spec_classes(), p.spec_classes().len() as int),
    }
}

/// The first fault among the methods `methods[from..]`.
pub open spec fn methods_fault(env: Env, methods: Seq<&MethodDecl>, from: int) -> Option<
    CompileError,
>
    decreases methods.len() - from,
{
    if 0 <= from < methods.len() {
        or_else(method_fault(env, methods[from]), methods_fault(env, methods, from + 1))
    } else {
        None
    }
}

/// The fault that stops the lowering of the program `p`: the first fault
/// among its methods or, where there is none, an entry point without an id.
pub open spec fn program_fault(ctx: AstView, p: &Program) -> Option<CompileError> {
    let env = Env { ctx, layout: program_layout(p) };
    or_else(
        methods_fault(env, p.spec_methods(), 0),
        if env.layout.methods.contains_key(ctx.entry_point.label.0) {
            None
        } else {
            Some(CompileError::UnknownNode)
        },
    )
}

/// Whether `out` is the code for the program `p`: the built-in method, then
/// the code for each method of `p` in order, and the id of the entry point.
pub open spec fn program_lowered(ctx: AstView, p: &Program, out: ir::Program) -> bool {
    let env = Env { ctx, layout: program_layout(p) };
    &&& out.methods@.len() == p.spec_methods().len() + 1
    &&& is_write_line(out.methods@[0])
    &&& forall|k: int|
        0 <= k < p.spec_methods().len() ==> method_lowered(
            env,
            p.spec_methods()[k],
            #[trigger] out.methods@[k + 1],
        )
    &&& env.layout.methods.contains_key(ctx.entry_point.label.0)
    &&& out.entry_point == env.layout.methods[ctx.entry_point.label.0]
}

} // verus!
