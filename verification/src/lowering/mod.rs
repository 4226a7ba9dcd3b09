//! Lowering of a type-checked syntax tree to the intermediate
//! representation.

pub mod numbering;
pub mod rules;

use std::collections::HashMap;
use vstd::prelude::*;
use crate::ast;
use crate::error::CompileError;
use crate::ir;
use crate::ir::{FieldId, MethodId, VarId};
use crate::preprocess::AstView;
use crate::query_engine::QueryEngine;
use crate::var_tracker::{Scope, VarTracker};
use crate::type_map::{lemma_extends_denotes, lemma_extends_transitive, lemma_unifies_terms};
use self::rules::{
    appended, assignment_fault, assignment_lowered, block_emitted, block_fault, block_lowered,
    block_scope_after, class_field_ids, class_summaries, emitted, expression_fault,
    expression_lowered, expressions_fault, expressions_lowered, field_ids, field_names,
    is_write_line, lemma_block_frame, lemma_statement_frame, method_fault, method_ids,
    method_lowered, methods_fault, params_scope, program_fault, program_layout,
    program_lowered, same_between, scope_after, settled_between, statement_fault,
    statement_lowered, ClassSummary, Env, Layout,
};

verus! {

broadcast use vstd::std_specs::hash::group_hash_axioms;

/// What the interpreter needs to know of a class to print its objects.
pub struct ClassInfo {
    pub name: String,
    /// The names of the fields, in declaration order.
    pub field_names: Vec<String>,
}

impl View for ClassInfo {
    type V = ClassSummary;

    open spec fn view(&self) -> ClassSummary {
        ClassSummary { name: self.name@, field_names: names_of(self.field_names@) }
    }
}

/// The names in `names`, as plain sequences.
pub open spec fn names_of(names: Seq<String>) -> Seq<Seq<char>> {
    Seq::new(names.len(), |i: int| names[i]@)
}

/// What is kept of the classes in `classes`, as plain values.
pub open spec fn summaries(classes: Map<u32, ClassInfo>) -> Map<u32, ClassSummary> {
    Map::new(|l: u32| classes.contains_key(l), |l: u32| classes[l]@)
}

/// The state of lowering.
pub struct LoweringContext<'ast> {
    pub ast: &'ast ast::Program,
    methods: HashMap<u32, MethodId>,
    fields: HashMap<u32, FieldId>,
    classes: HashMap<u32, ClassInfo>,
    var_tracker: VarTracker,
}

/// What lowering gives: the program, and its classes by the labels of their
/// declarations.
pub struct LoweringOutput {
    pub program: ir::Program,
    pub classes: HashMap<u32, ClassInfo>,
}

/// Whether `outs[k + shift]` is the code for `es[k]`.
spec fn lowered_at(
    env: Env,
    scope: Scope,
    es: Seq<ast::Expression>,
    outs: Seq<ir::Expression>,
    k: int,
    shift: int,
) -> bool {
    0 <= k + shift < outs.len() && expression_lowered(env, scope, &es[k], outs[k + shift])
}

/// If every expression from `from` on has its code in `outs`, the list has.
proof fn lemma_expressions_lowered(
    env: Env,
    scope: Scope,
    es: Seq<ast::Expression>,
    outs: Seq<ir::Expression>,
    from: int,
    shift: int,
)
    requires
        0 <= from,
        forall|k: int| from <= k < es.len() ==> #[trigger] lowered_at(env, scope, es, outs, k, shift),
    ensures
        expressions_lowered(env, scope, es, outs, from, shift),
    decreases es.len() - from,
{
    if from < es.len() {
        assert(lowered_at(env, scope, es, outs, from, shift));
        lemma_expressions_lowered(env, scope, es, outs, from + 1, shift);
    }
}

impl<'ast> LoweringContext<'ast> {
    /// The ids given so far to methods and fields.
    pub closed spec fn layout(&self) -> Layout {
        Layout { methods: self.methods@, fields: self.fields@ }
    }

    /// The program that is being lowered.
    pub closed spec fn program(&self) -> &'ast ast::Program {
        self.ast
    }

    /// The numbering of the variables of the method that is being lowered.
    pub closed spec fn scope(&self) -> Scope {
        self.var_tracker@
    }

    /// What the rules of lowering are read in.
    pub open spec fn env(&self, ctx: AstView<'ast>) -> Env<'ast> {
        Env { ctx, layout: self.layout() }
    }

    /// A context in which nothing has been given an id.
    pub fn new(ast: &'ast ast::Program) -> (r: LoweringContext<'ast>)
        ensures
            r.program() == ast,
            r.layout() == (Layout { methods: Map::empty(), fields: Map::empty() }),
            r.scope() == Scope::empty(),
    {
        LoweringContext {
            ast,
            methods: HashMap::new(),
            fields: HashMap::new(),
            classes: HashMap::new(),
            var_tracker: VarTracker::new(),
        }
    }

    /// The code for the expressions `exprs`, put behind `arguments`.
    fn lower_arguments(
        &self,
        engine: &mut QueryEngine<'ast>,
        exprs: &'ast Vec<ast::Expression>,
        is_static: bool,
        arguments: Vec<ir::Expression>,
    ) -> (r: Result<Vec<ir::Expression>, CompileError>)
        requires
            old(engine).wf(),
        ensures
            final(engine).grown_from(*old(engine)),
            match expressions_fault(
                self.env(old(engine).tables()),
                self.scope(),
                is_static,
                exprs@,
                0,
            ) {
                Some(err) => r matches Err(e) && e == err,
                None => {
                    &&& r matches Ok(outs)
                    &&& outs@.len() == arguments@.len() + exprs@.len()
                    &&& forall|k: int| 0 <= k < arguments@.len() ==> outs@[k] == arguments@[k]
                    &&& expressions_lowered(
                        self.env(old(engine).tables()),
                        self.scope(),
                        exprs@,
                        outs@,
                        0,
                        arguments@.len() as int,
                    )
                },
            },
        decreases exprs,
    {
        let ghost env = self.env(old(engine).tables());
        let ghost shift = arguments@.len() as int;
        let ghost given = arguments@;
        let mut outs = arguments;
        let mut i: usize = 0;
        while i < exprs.len()
            invariant
                i <= exprs.len(),
                outs@.len() == shift + i,
                shift == given.len(),
                env == self.env(engine.tables()),
                engine.grown_from(*old(engine)),
                forall|k: int| 0 <= k < shift ==> outs@[k] == given[k],
                forall|k: int|
                    0 <= k < i ==> #[trigger] lowered_at(env, self.scope(), exprs@, outs@, k, shift),
                expressions_fault(env, self.scope(), is_static, exprs@, i as int)
                    == expressions_fault(env, self.scope(), is_static, exprs@, 0),
            decreases exprs.len() - i,
        {
            let ghost before = engine.type_table();
            let ghost prev = outs@;
            let out = self.lower_expression(engine, &exprs[i], is_static)?;
            outs.push(out);
            proof {
                lemma_extends_transitive(
                    engine.type_table(),
                    before,
                    old(engine).type_table(),
                );
                assert forall|k: int| 0 <= k < i + 1 implies #[trigger] lowered_at(
                    env,
                    self.scope(),
                    exprs@,
                    outs@,
                    k,
                    shift,
                ) by {
                    if k < i {
                        assert(lowered_at(env, self.scope(), exprs@, prev, k, shift));
                        assert(outs@[k + shift] == prev[k + shift]);
                    }
                }
            }
            i = i + 1;
        }
        proof {
            lemma_expressions_lowered(env, self.scope(), exprs@, outs@, 0, shift);
        }
        Ok(outs)
    }

    /// The code for the expression `e` of a method that is static or not
    /// as `is_static` says. The expression is type checked first.
    pub fn lower_expression(
        &self,
        engine: &mut QueryEngine<'ast>,
        e: &'ast ast::Expression,
        is_static: bool,
    ) -> (r: Result<ir::Expression, CompileError>)
        requires
            old(engine).wf(),
        ensures
            final(engine).grown_from(*old(engine)),
            match expression_fault(self.env(old(engine).tables()), self.scope(), is_static, e) {
                Some(err) => r matches Err(e) && e == err,
                None => r matches Ok(out) && expression_lowered(
                    self.env(old(engine).tables()),
                    self.scope(),
                    e,
                    out,
                ),
            },
        decreases e,
    {
        let ghost env = self.env(old(engine).tables());
        let ghost t0 = old(engine).type_table();
        engine.query_expr_type(e.label())?;
        let ghost t1 = engine.type_table();
        match e {
            ast::Expression::BinaryOp(bin_op) => {
                let left = self.lower_expression(engine, &bin_op.left, is_static)?;
                let ghost t2 = engine.type_table();
                let right = self.lower_expression(engine, &bin_op.right, is_static)?;
                proof {
                    lemma_extends_transitive(t2, t1, t0);
                    lemma_extends_transitive(engine.type_table(), t2, t0);
                }
                Ok(
                    ir::Expression::Intrinsic(
                        Box::new(ir::Intrinsic::IntOp(bin_op.operator, left, right)),
                    ),
                )
            },
            ast::Expression::FieldAccess(fa) => {
                let target = self.lower_expression(engine, &fa.target, is_static)?;
                let ghost t2 = engine.type_table();
                let field_label = engine.query_field(fa.label.assert_as_var_use())?;
                proof {
                    lemma_extends_transitive(t2, t1, t0);
                    lemma_extends_transitive(engine.type_table(), t2, t0);
                }
                let field_id = match self.fields.get(&field_label.0.0) {
                    Some(id) => *id,
                    None => {
                        return Err(CompileError::UnknownNode);
                    },
                };
                Ok(ir::Expression::FieldAccess(Box::new(ir::FieldAccess { target, field_id })))
            },
            ast::Expression::Literal(l) => {
                let lit = match &l.kind {
                    ast::LiteralKind::Bool(b) => ir::Literal::Bool(*b),
                    ast::LiteralKind::Int(i) => ir::Literal::Int(*i),
                    ast::LiteralKind::String(s) => ir::Literal::String(s.clone()),
                    ast::LiteralKind::Array(_, exprs) => {
                        let outs = self.lower_arguments(engine, exprs, is_static, Vec::new())?;
                        proof {
                            lemma_extends_transitive(engine.type_table(), t1, t0);
                        }
                        ir::Literal::Array(outs)
                    },
                    ast::LiteralKind::Null => ir::Literal::Null,
                };
                Ok(ir::Expression::Literal(lit))
            },
            ast::Expression::MethodCall(mc) => {
                let (method_id, callee_is_static) = if mc.is_console_write_line() {
                    (MethodId(0), true)
                } else {
                    let label = engine.query_method_decl(mc.label.assert_as_method_use())?;
                    let callee_is_static = engine.query_is_static(label)?;
                    let method_id = match self.methods.get(&label.0.0) {
                        Some(id) => *id,
                        None => {
                            return Err(CompileError::UnknownNode);
                        },
                    };
                    (method_id, callee_is_static)
                };
                let ghost t2 = engine.type_table();
                proof {
                    lemma_extends_transitive(t2, t1, t0);
                }
                let mut arguments: Vec<ir::Expression> = Vec::new();
                if !callee_is_static {
                    let target = self.lower_expression(engine, &mc.target, is_static)?;
                    arguments.push(target);
                }
                let ghost t3 = engine.type_table();
                proof {
                    lemma_extends_transitive(t3, t2, t0);
                }
                let arguments = self.lower_arguments(engine, &mc.args, is_static, arguments)?;
                proof {
                    lemma_extends_transitive(engine.type_table(), t3, t0);
                }
                Ok(ir::Expression::MethodCall(ir::MethodCall { method_id, arguments }))
            },
            ast::Expression::New(n) => {
                let class_label = engine.query_class_decl(n.class_name.as_str())?;
                Ok(ir::Expression::NewObject(class_label))
            },
            ast::Expression::Identifier(i) => {
                let var_label = engine.query_var_decl(i.label)?;
                match self.var_tracker.get_var_id(var_label) {
                    Some(id) => Ok(ir::Expression::VarRead(id)),
                    None => Err(CompileError::UnresolvedName),
                }
            },
            ast::Expression::This(_) => {
                if is_static {
                    return Err(CompileError::ThisInStaticMethod);
                }
                Ok(ir::Expression::VarRead(VarId::this()))
            },
        }
    }

    /// What a step of lowering leaves as it was: the ids of methods and
    /// fields, and the program.
    pub closed spec fn same_layout(&self, before: LoweringContext<'ast>) -> bool {
        &&& self.methods == before.methods
        &&& self.fields == before.fields
        &&& self.classes == before.classes
        &&& self.ast == before.ast
    }

    /// The invariant of the context.
    pub closed spec fn wf(&self) -> bool {
        self.var_tracker@.wf()
    }

    /// The code for an assignment of `expr` to the variable that `target`
    /// names.
    fn lower_assignment(
        &self,
        engine: &mut QueryEngine<'ast>,
        target: ast::Label,
        expr: &'ast ast::Expression,
        is_static: bool,
    ) -> (r: Result<ir::Statement, CompileError>)
        requires
            old(engine).wf(),
        ensures
            final(engine).grown_from(*old(engine)),
            match assignment_fault(
                self.env(old(engine).tables()),
                self.scope(),
                is_static,
                target.0,
                expr,
            ) {
                Some(err) => r matches Err(e) && e == err,
                None => r matches Ok(st) && st matches ir::Statement::Assign(out)
                    && assignment_lowered(
                    self.env(old(engine).tables()),
                    self.scope(),
                    target.0,
                    expr,
                    out,
                ),
            },
    {
        let ghost t0 = engine.type_table();
        let decl_label = engine.query_var_decl(target)?;
        let var_ty = engine.query_var_type(decl_label)?;
        let ghost t1 = engine.type_table();
        let expr_ty = match engine.query_expr_type(expr.label())? {
            Some(ty) => ty,
            None => {
                return Err(CompileError::UnresolvedName);
            },
        };
        let ghost t2 = engine.type_table();
        proof {
            lemma_extends_denotes(t2, t1, var_ty);
            lemma_unifies_terms(t2, var_ty, expr_ty);
            lemma_extends_transitive(t2, t1, t0);
        }
        if !engine.types().unify(var_ty, expr_ty) {
            return Err(CompileError::TypeMismatch);
        }
        let value = self.lower_expression(engine, expr, is_static)?;
        proof {
            lemma_extends_transitive(engine.type_table(), t2, t0);
        }
        let var_id = match self.var_tracker.get_var_id(decl_label) {
            Some(id) => id,
            None => {
                return Err(CompileError::UnresolvedName);
            },
        };
        Ok(ir::Statement::Assign(ir::Assign { var_id, value }))
    }

    /// Puts the code for the statements `block` behind `body`.
    fn lower_block(
        &mut self,
        engine: &mut QueryEngine<'ast>,
        block: &'ast Vec<ast::Statement>,
        body: &mut Vec<ir::Statement>,
        parent_method: &'ast ast::MethodDecl,
    ) -> (r: Result<(), CompileError>)
        requires
            old(engine).wf(),
            old(self).wf(),
        ensures
            match block_fault(
                old(self).env(old(engine).tables()),
                parent_method,
                old(self).scope(),
                block@,
                0,
            ) {
                Some(err) => r matches Err(e) && e == err,
                None => {
                    &&& r is Ok
                    &&& final(engine).grown_from(*old(engine))
                    &&& final(self).wf()
                    &&& final(self).same_layout(*old(self))
                    &&& final(self).scope() == block_scope_after(old(self).scope(), block@, 0)
                    &&& appended(old(body)@, final(body)@, block_emitted(block@, 0))
                    &&& block_lowered(
                        old(self).env(old(engine).tables()),
                        parent_method,
                        old(self).scope(),
                        final(body)@,
                        old(body)@.len() as int,
                        block@,
                        0,
                    )
                    &&& settled_between(
                        final(body)@,
                        old(body)@.len() as int,
                        final(body)@.len() as int,
                    )
                },
            },
        decreases block,
    {
        let ghost env = self.env(engine.tables());
        let ghost scope0 = self.scope();
        let ghost start = body@.len() as int;
        let ghost t0 = engine.type_table();
        let mut i: usize = 0;
        while i < block.len()
            invariant
                i <= block.len(),
                engine.grown_from(*old(engine)),
                self.wf(),
                self.same_layout(*old(self)),
                env == self.env(engine.tables()),
                env == old(self).env(old(engine).tables()),
                scope0 == old(self).scope(),
                start == old(body)@.len(),
                t0 == old(engine).type_table(),
                block_fault(env, parent_method, self.scope(), block@, i as int) == block_fault(
                    env,
                    parent_method,
                    scope0,
                    block@,
                    0,
                ),
                block_scope_after(self.scope(), block@, i as int) == block_scope_after(
                    scope0,
                    block@,
                    0,
                ),
                body@.len() + block_emitted(block@, i as int) == start + block_emitted(block@, 0),
                forall|k: int| 0 <= k < start ==> #[trigger] body@[k] == old(body)@[k],
                settled_between(body@, start, body@.len() as int),
                forall|b: Seq<ir::Statement>|
                    same_between(body@, b, start, body@.len() as int) && #[trigger] block_lowered(
                        env,
                        parent_method,
                        self.scope(),
                        b,
                        body@.len() as int,
                        block@,
                        i as int,
                    ) ==> block_lowered(env, parent_method, scope0, b, start, block@, 0),
            decreases block.len() - i,
        {
            let ghost before = body@;
            let ghost scope_i = self.scope();
            let ghost t1 = engine.type_table();
            self.lower_statement(engine, &block[i], body, parent_method)?;
            proof {
                lemma_extends_transitive(engine.type_table(), t1, t0);
                let s = &block@[i as int];
                let scope_next = self.scope();
                assert forall|b: Seq<ir::Statement>|
                    same_between(body@, b, start, body@.len() as int) && #[trigger] block_lowered(
                        env,
                        parent_method,
                        scope_next,
                        b,
                        body@.len() as int,
                        block@,
                        i + 1,
                    ) implies block_lowered(env, parent_method, scope0, b, start, block@, 0) by {
                    lemma_statement_frame(
                        env,
                        parent_method,
                        scope_i,
                        body@,
                        b,
                        before.len() as int,
                        s,
                    );
                    assert(block_lowered(
                        env,
                        parent_method,
                        scope_i,
                        b,
                        before.len() as int,
                        block@,
                        i as int,
                    ));
                    assert(same_between(before, b, start, before.len() as int)) by {
                        assert forall|k: int| start <= k < before.len() implies #[trigger] before[k]
                            == b[k] by {
                            assert(body@[k] == before[k]);
                            assert(body@[k] == b[k]);
                        }
                    }
                }
                assert(settled_between(body@, start, body@.len() as int)) by {
                    assert forall|k: int| start <= k < body@.len() implies !((
                    #[trigger] body@[k]) is Nop) && (body@[k].target() matches Some(t) ==> start
                        <= t <= body@.len()) by {
                        if k < before.len() {
                            assert(body@[k] == before[k]);
                        }
                    }
                }
            }
            i = i + 1;
        }
        proof {
            assert(block_lowered(
                env,
                parent_method,
                self.scope(),
                body@,
                body@.len() as int,
                block@,
                i as int,
            ));
        }
        Ok(())
    }

    /// Puts the code for the statement `s` of the method `parent_method`
    /// behind `body`.
    fn lower_statement(
        &mut self,
        engine: &mut QueryEngine<'ast>,
        s: &'ast ast::Statement,
        body: &mut Vec<ir::Statement>,
        parent_method: &'ast ast::MethodDecl,
    ) -> (r: Result<(), CompileError>)
        requires
            old(engine).wf(),
            old(self).wf(),
        ensures
            match statement_fault(
                old(self).env(old(engine).tables()),
                parent_method,
                old(self).scope(),
                s,
            ) {
                Some(err) => r matches Err(e) && e == err,
                None => {
                    &&& r is Ok
                    &&& final(engine).grown_from(*old(engine))
                    &&& final(self).wf()
                    &&& final(self).same_layout(*old(self))
                    &&& final(self).scope() == scope_after(old(self).scope(), s)
                    &&& appended(old(body)@, final(body)@, emitted(s))
                    &&& statement_lowered(
                        old(self).env(old(engine).tables()),
                        parent_method,
                        old(self).scope(),
                        final(body)@,
                        old(body)@.len() as int,
                        s,
                    )
                    &&& settled_between(
                        final(body)@,
                        old(body)@.len() as int,
                        final(body)@.len() as int,
                    )
                },
            },
        decreases s,
    {
        let ghost env = self.env(engine.tables());
        let ghost t0 = engine.type_table();
        let ghost start = body@.len() as int;
        match s {
            ast::Statement::Assign(assign) => {
                let st = self.lower_assignment(
                    engine,
                    assign.label,
                    &assign.expr,
                    parent_method.is_static,
                )?;
                body.push(st);
                Ok(())
            },
            ast::Statement::Expression(expr) => {
                let expr = self.lower_expression(engine, expr, parent_method.is_static)?;
                body.push(ir::Statement::Expression(expr));
                Ok(())
            },
            ast::Statement::Return(ret) => {
                let ret_ty = engine.query_return_type(parent_method.label.assert_as_method_decl())?;
                let ghost t1 = engine.type_table();
                let expr_ty = match &ret.expr {
                    Some(e) => match engine.query_expr_type(e.label())? {
                        Some(ty) => ty,
                        None => {
                            return Err(CompileError::UnresolvedName);
                        },
                    },
                    None => engine.types().void_ty(),
                };
                let ghost t2 = engine.type_table();
                proof {
                    lemma_extends_transitive(t2, t1, t0);
                    lemma_extends_denotes(t2, t1, ret_ty);
                    lemma_unifies_terms(t2, ret_ty, expr_ty);
                }
                if !engine.types().unify(ret_ty, expr_ty) {
                    return Err(CompileError::TypeMismatch);
                }
                let expr = match &ret.expr {
                    Some(e) => Some(self.lower_expression(engine, e, parent_method.is_static)?),
                    None => None,
                };
                proof {
                    lemma_extends_transitive(engine.type_table(), t2, t0);
                }
                body.push(ir::Statement::Return(expr));
                Ok(())
            },
            ast::Statement::VarDecl(var_decl) => {
                self.var_tracker.var_decl(var_decl.label.assert_as_var_decl());
                body.push(ir::Statement::VarDecl);
                match &var_decl.expr {
                    Some(expr) => {
                        let st = self.lower_assignment(
                            engine,
                            var_decl.label,
                            expr,
                            parent_method.is_static,
                        )?;
                        body.push(st);
                    },
                    None => {},
                }
                Ok(())
            },
            ast::Statement::IfThenElse(ite) => {
                let ty = match engine.query_expr_type(ite.condition.label())? {
                    Some(ty) => ty,
                    None => {
                        return Err(CompileError::UnresolvedName);
                    },
                };
                let ghost t1 = engine.type_table();
                let bool_ty = engine.types().bool_ty();
                proof {
                    lemma_unifies_terms(t1, ty, bool_ty);
                }
                if !engine.types().unify(ty, bool_ty) {
                    return Err(CompileError::TypeMismatch);
                }
                let ghost scope0 = self.scope();
                let ghost else_len = block_emitted(ite.else_block@, 0) as int;
                let ghost then_len = block_emitted(ite.then_block@, 0) as int;

                // A placeholder for the branch.
                let branch_i: usize = body.len();
                body.push(ir::Statement::Nop);
                let ghost b0 = body@;

                self.lower_block(engine, &ite.else_block, body, parent_method)?;
                let ghost b1 = body@;
                let ghost t2 = engine.type_table();
                let ghost scope1 = self.scope();

                // A placeholder for the jump.
                let jump_i: usize = body.len();
                body.push(ir::Statement::Nop);
                let then_addr: usize = body.len();
                let ghost b2 = body@;

                self.lower_block(engine, &ite.then_block, body, parent_method)?;
                let end_addr: usize = body.len();
                let ghost b3 = body@;
                let ghost t3 = engine.type_table();
                proof {
                    lemma_extends_transitive(t2, t1, t0);
                    lemma_extends_transitive(t3, t2, t0);
                }

                let cond = self.lower_expression(engine, &ite.condition, parent_method.is_static)?;
                body.set(branch_i, ir::Statement::Branch(cond, then_addr));
                body.set(jump_i, ir::Statement::Jump(end_addr));
                proof {
                    lemma_extends_transitive(engine.type_table(), t3, t0);
                    let fin = body@;
                    assert(same_between(b1, fin, start + 1, start + 1 + else_len)) by {
                        assert forall|k: int| start + 1 <= k < start + 1 + else_len implies #[trigger] b1[k]
                            == fin[k] by {
                            assert(b2[k] == b1[k]);
                            assert(b3[k] == b2[k]);
                        }
                    }
                    lemma_block_frame(
                        env,
                        parent_method,
                        scope0,
                        b1,
                        fin,
                        start + 1,
                        ite.else_block@,
                        0,
                    );
                    assert(same_between(b3, fin, start + else_len + 2, start + else_len + 2 + then_len));
                    lemma_block_frame(
                        env,
                        parent_method,
                        scope1,
                        b3,
                        fin,
                        start + else_len + 2,
                        ite.then_block@,
                        0,
                    );
                    assert forall|k: int| 0 <= k < start implies #[trigger] fin[k] == old(body)@[k] by {
                        assert(b0[k] == old(body)@[k]);
                        assert(b1[k] == b0[k]);
                        assert(b2[k] == b1[k]);
                        assert(b3[k] == b2[k]);
                    }
                    assert forall|k: int| start <= k < fin.len() implies !((#[trigger] fin[k]) is Nop)
                        && (fin[k].target() matches Some(t) ==> start <= t <= fin.len()) by {
                        if start + 1 <= k < start + 1 + else_len {
                            assert(b1[k] == fin[k]);
                        } else if start + else_len + 2 <= k {
                            assert(b3[k] == fin[k]);
                        }
                    }
                }
                Ok(())
            },
        }
    }

    /// The code of the built-in method that prints its argument.
    fn lower_console_write_line(&self) -> (r: ir::Method)
        ensures
            is_write_line(r),
            settled_between(r.body@, 0, r.body@.len() as int),
    {
        let mut body: Vec<ir::Statement> = Vec::new();
        body.push(
            ir::Statement::Expression(
                ir::Expression::Intrinsic(
                    Box::new(ir::Intrinsic::PrintLine(ir::Expression::VarRead(VarId(0)))),
                ),
            ),
        );
        ir::Method { body }
    }

    /// The code for the method `m`.
    ///
    /// The variables of the method are numbered from 0 in the order in which
    /// they are declared, the parameters first; in a method that is not
    /// static, 0 is the receiver and the numbering starts at 1. The body
    /// that results holds no placeholder, and every position that a branch
    /// or a jump in it names lies within the body or just behind it.
    fn lower_method(&mut self, engine: &mut QueryEngine<'ast>, m: &'ast ast::MethodDecl) -> (r:
        Result<ir::Method, CompileError>)
        requires
            old(engine).wf(),
        ensures
            match method_fault(old(self).env(old(engine).tables()), m) {
                Some(err) => r matches Err(e) && e == err,
                None => {
                    &&& r matches Ok(out)
                    &&& final(engine).grown_from(*old(engine))
                    &&& final(self).same_layout(*old(self))
                    &&& method_lowered(old(self).env(old(engine).tables()), m, out)
                    &&& settled_between(out.body@, 0, out.body@.len() as int)
                },
            },
    {
        self.var_tracker.reset();
        if !m.is_static {
            self.var_tracker.reserve_this();
        }
        let ghost first = self.scope();
        let mut i: usize = 0;
        while i < m.params.len()
            invariant
                i <= m.params.len(),
                self.wf(),
                self.same_layout(*old(self)),
                params_scope(self.scope(), m.params@, i as int) == params_scope(
                    first,
                    m.params@,
                    0,
                ),
            decreases m.params.len() - i,
        {
            self.var_tracker.var_decl(m.params[i].label.assert_as_var_decl());
            i = i + 1;
        }
        let mut body: Vec<ir::Statement> = Vec::new();
        self.lower_block(engine, &m.body, &mut body, m)?;
        Ok(ir::Method { body })
    }

    /// Gives every field of the program its id, and keeps of every class
    /// what printing needs.
    fn number_fields(&mut self, classes: &Vec<&'ast ast::ClassDecl>)
        ensures
            final(self).fields@ == field_ids(classes@, classes@.len() as int),
            summaries(final(self).classes@) == class_summaries(classes@, classes@.len() as int),
            final(self).ast == old(self).ast,
    {
        self.fields = HashMap::new();
        self.classes = HashMap::new();
        assert(summaries(self.classes@) =~= class_summaries(classes@, 0));
        let mut i: usize = 0;
        while i < classes.len()
            invariant
                i <= classes.len(),
                self.ast == old(self).ast,
                self.fields@ == field_ids(classes@, i as int),
                summaries(self.classes@) == class_summaries(classes@, i as int),
            decreases classes.len() - i,
        {
            let cd: &'ast ast::ClassDecl = classes[i];
            let ghost base = self.fields@;
            let mut names: Vec<String> = Vec::new();
            assert(names_of(names@) =~= field_names(cd.items@, 0));
            let mut j: usize = 0;
            while j < cd.items.len()
                invariant
                    j <= cd.items.len(),
                    self.ast == old(self).ast,
                    self.fields@ == class_field_ids(base, cd.items@, j as int),
                    names_of(names@) == field_names(cd.items@, j as int),
                    summaries(self.classes@) == class_summaries(classes@, i as int),
                decreases cd.items.len() - j,
            {
                match &cd.items[j] {
                    ast::ClassItem::FieldDecl(fd) => {
                        let field_id: usize = names.len();
                        let ghost before = names@;
                        names.push(fd.name.clone());
                        assert(names_of(names@) =~= names_of(before).push(fd.name@));
                        self.fields.insert(fd.label.0, FieldId(field_id));
                    },
                    ast::ClassItem::MethodDecl(_) => {},
                }
                j = j + 1;
            }
            let ghost before = self.classes@;
            let info = ClassInfo { name: cd.name.clone(), field_names: names };
            self.classes.insert(cd.label.0, info);
            assert(summaries(self.classes@) =~= summaries(before).insert(cd.label.0, info@));
            i = i + 1;
        }
    }

    /// Gives every method of the program its id.
    fn number_methods(&mut self, methods: &Vec<&'ast ast::MethodDecl>)
        ensures
            final(self).methods@ == method_ids(methods@, methods@.len() as int),
            final(self).fields == old(self).fields,
            final(self).classes == old(self).classes,
            final(self).ast == old(self).ast,
    {
        self.methods = HashMap::new();
        let mut k: usize = 0;
        while k < methods.len()
            invariant
                k <= methods.len(),
                self.fields == old(self).fields,
                self.classes == old(self).classes,
                self.ast == old(self).ast,
                self.methods@ == method_ids(methods@, k as int),
            decreases methods.len() - k,
        {
            self.methods.insert(methods[k].label.0, MethodId(k + 1));
            k = k + 1;
        }
    }

    /// The code for the whole program, with what is kept of its classes for
    /// printing; or the first fault met.
    ///
    /// Method 0 of the result prints its argument. The methods of the
    /// program follow in the order of their declaration, class by class; a
    /// field has for id its position among the fields of its class. No
    /// body holds a placeholder, and every position that a branch or a jump
    /// names lies within its body or just behind it.
    pub fn lower_program(self, engine: &mut QueryEngine<'ast>) -> (r: Result<
        LoweringOutput,
        CompileError,
    >)
        requires
            old(engine).wf(),
        ensures
            match program_fault(old(engine).tables(), self.program()) {
                Some(err) => r matches Err(e) && e == err,
                None => {
                    &&& r matches Ok(out)
                    &&& final(engine).grown_from(*old(engine))
                    &&& program_lowered(old(engine).tables(), self.program(), out.program)
                    &&& summaries(out.classes@) == class_summaries(
                        self.program().spec_classes(),
                        self.program().spec_classes().len() as int,
                    )
                    &&& forall|k: int|
                        0 <= k < out.program.methods@.len() ==> settled_between(
                            (#[trigger] out.program.methods@[k]).body@,
                            0,
                            out.program.methods@[k].body@.len() as int,
                        )
                },
            },
    {
        let ghost whole = self.program();
        let mut ctx = self;
        let ghost t0 = engine.type_table();
        let ast: &'ast ast::Program = ctx.ast;
        let mut lowered: Vec<ir::Method> = Vec::new();
        lowered.push(ctx.lower_console_write_line());

        let classes = ast.classes();
        ctx.number_fields(&classes);
        let methods = ast.methods();
        ctx.number_methods(&methods);
        let ghost env = ctx.env(engine.tables());
        assert(env.layout == program_layout(ast));

        let mut k: usize = 0;
        while k < methods.len()
            invariant
                k <= methods.len(),
                methods@ == ast.spec_methods(),
                lowered@.len() == k + 1,
                is_write_line(lowered@[0]),
                engine.grown_from(*old(engine)),
                t0 == old(engine).type_table(),
                env == ctx.env(engine.tables()),
                env == (Env { ctx: old(engine).tables(), layout: program_layout(ast) }),
                ctx.ast == ast,
                ast == whole,
                whole == self.program(),
                summaries(ctx.classes@) == class_summaries(
                    ast.spec_classes(),
                    ast.spec_classes().len() as int,
                ),
                methods_fault(env, methods@, k as int) == methods_fault(env, methods@, 0),
                forall|j: int|
                    0 <= j < k ==> method_lowered(env, methods@[j], #[trigger] lowered@[j + 1]),
                forall|j: int|
                    0 <= j < lowered@.len() ==> settled_between(
                        (#[trigger] lowered@[j]).body@,
                        0,
                        lowered@[j].body@.len() as int,
                    ),
            decreases methods.len() - k,
        {
            let ghost t1 = engine.type_table();
            let ghost prev = lowered@;
            let method = ctx.lower_method(engine, methods[k])?;
            lowered.push(method);
            proof {
                lemma_extends_transitive(engine.type_table(), t1, t0);
                assert forall|j: int| 0 <= j < k + 1 implies method_lowered(
                    env,
                    methods@[j],
                    #[trigger] lowered@[j + 1],
                ) by {
                    if j < k {
                        assert(lowered@[j + 1] == prev[j + 1]);
                    }
                }
                assert forall|j: int| 0 <= j < lowered@.len() implies settled_between(
                    (#[trigger] lowered@[j]).body@,
                    0,
                    lowered@[j].body@.len() as int,
                ) by {
                    if j < prev.len() {
                        assert(lowered@[j] == prev[j]);
                    }
                }
            }
            k = k + 1;
        }
        let ep = engine.entry_point().label;
        let entry_point = match ctx.methods.get(&ep.0) {
            Some(id) => *id,
            None => {
                return Err(CompileError::UnknownNode);
            },
        };
        let program = ir::Program { methods: lowered, entry_point };
        Ok(LoweringOutput { program, classes: ctx.classes })
    }
}

} // verus!
