//! Type checking of a whole program in one pass.
//!
//! The pass walks every expression of the program, children before
//! parents, and records the type of each under its label. It stops at the
//! first expression that has a fault.

use std::collections::HashMap;
use vstd::prelude::*;
use crate::ast::{
    ClassDecl, ClassItem, Expression, Label, LiteralKind, Program, Statement, TopItem, VarDecl,
};
use crate::error::CompileError;
use crate::preprocess::{preprocessed, AstView};
use crate::query_engine::{answers, QueryEngine};
use crate::type_map::{
    denotes, extends, lemma_extends_denotes, lemma_extends_transitive, table_wf, valid_id, Type,
    TypeId, TypeMap, TypeTerm,
};
use crate::typing::{known_call_table, member_table, operand_term, type_term, typing_table};

verus! {

broadcast use vstd::std_specs::hash::group_hash_axioms;

/// The types that the ids in `m` stand for in `table`.
pub open spec fn terms_of(table: Seq<Type>, m: Map<u32, TypeId>) -> Map<u32, TypeTerm> {
    Map::new(|l: u32| m.contains_key(l), |l: u32| denotes(table, m[l]))
}

/// Whether every id in `m` is one that `table` has issued, or the sentinel.
pub open spec fn ids_valid(table: Seq<Type>, m: Map<u32, TypeId>) -> bool {
    forall|l: u32| m.contains_key(l) ==> valid_id(table, #[trigger] m[l])
}

/// The record after the type `t` is entered under `label`; nothing is
/// entered for an expression without a type.
pub open spec fn recorded(out: Map<u32, TypeTerm>, label: u32, t: Option<TypeTerm>) -> Map<
    u32,
    TypeTerm,
> {
    match t {
        Some(t) => out.insert(label, t),
        None => out,
    }
}

/// The record after the pass over the expression `e`: first over its
/// children in order, then the type of `e` itself is entered.
pub open spec fn checked_expression(ctx: AstView, out: Map<u32, TypeTerm>, e: &Expression) -> Result<
    Map<u32, TypeTerm>,
    CompileError,
>
    decreases e,
{
    let children = match *e {
        Expression::BinaryOp(b) => match checked_expression(ctx, out, &*b.left) {
            Ok(o1) => checked_expression(ctx, o1, &*b.right),
            Err(err) => Err(err),
        },
        Expression::FieldAccess(fa) => checked_expression(ctx, out, &*fa.target),
        Expression::Literal(l) => match l.kind {
            LiteralKind::Array(_, elements) => checked_expressions(ctx, out, elements@, 0),
            _ => Ok(out),
        },
        Expression::MethodCall(mc) => match checked_expression(ctx, out, &*mc.target) {
            Ok(o1) => checked_expressions(ctx, o1, mc.args@, 0),
            Err(err) => Err(err),
        },
        _ => Ok(out),
    };
    match children {
        Ok(o) => match type_term(ctx, e) {
            Ok(t) => Ok(recorded(o, e.spec_label().0, t)),
            Err(err) => Err(err),
        },
        Err(err) => Err(err),
    }
}

/// The record after the pass over `es[from..]`, in order.
pub open spec fn checked_expressions(
    ctx: AstView,
    out: Map<u32, TypeTerm>,
    es: Seq<Expression>,
    from: int,
) -> Result<Map<u32, TypeTerm>, CompileError>
    decreases es, es.len() - from,
{
    if 0 <= from < es.len() {
        match checked_expression(ctx, out, &es[from]) {
            Ok(o) => checked_expressions(ctx, o, es, from + 1),
            Err(err) => Err(err),
        }
    } else {
        Ok(out)
    }
}

/// The record after the pass over an expression that may be absent.
pub open spec fn checked_optional(ctx: AstView, out: Map<u32, TypeTerm>, e: Option<Expression>) -> Result<
    Map<u32, TypeTerm>,
    CompileError,
> {
    match e {
        Some(e) => checked_expression(ctx, out, &e),
        None => Ok(out),
    }
}

/// The record after the pass over the initializers of `vds[from..]`.
pub open spec fn checked_var_decls(
    ctx: AstView,
    out: Map<u32, TypeTerm>,
    vds: Seq<VarDecl>,
    from: int,
) -> Result<Map<u32, TypeTerm>, CompileError>
    decreases vds.len() - from,
{
    if 0 <= from < vds.len() {
        match checked_optional(ctx, out, vds[from].expr) {
            Ok(o) => checked_var_decls(ctx, o, vds, from + 1),
            Err(err) => Err(err),
        }
    } else {
        Ok(out)
    }
}

/// The record after the pass over the expressions of the statement `s`.
pub open spec fn checked_statement(ctx: AstView, out: Map<u32, TypeTerm>, s: &Statement) -> Result<
    Map<u32, TypeTerm>,
    CompileError,
>
    decreases s,
{
    match *s {
        Statement::Assign(a) => checked_expression(ctx, out, &a.expr),
        Statement::Expression(e) => checked_expression(ctx, out, &e),
        Statement::Return(r) => checked_optional(ctx, out, r.expr),
        Statement::VarDecl(vd) => checked_optional(ctx, out, vd.expr),
        Statement::IfThenElse(ite) => match checked_expression(ctx, out, &ite.condition) {
            Ok(o1) => match checked_statements(ctx, o1, ite.then_block@, 0) {
                Ok(o2) => checked_statements(ctx, o2, ite.else_block@, 0),
                Err(err) => Err(err),
            },
            Err(err) => Err(err),
        },
    }
}

/// The record after the pass over `ss[from..]`, in order.
pub open spec fn checked_statements(
    ctx: AstView,
    out: Map<u32, TypeTerm>,
    ss: Seq<Statement>,
    from: int,
) -> Result<Map<u32, TypeTerm>, CompileError>
    decreases ss, ss.len() - from,
{
    if 0 <= from < ss.len() {
        match checked_statement(ctx, out, &ss[from]) {
            Ok(o) => checked_statements(ctx, o, ss, from + 1),
            Err(err) => Err(err),
        }
    } else {
        Ok(out)
    }
}

/// The record after the pass over the class item `ci`: over the
/// initializer of a field, or over the parameters and then the body of a
/// method.
pub open spec fn checked_class_item(ctx: AstView, out: Map<u32, TypeTerm>, ci: &ClassItem) -> Result<
    Map<u32, TypeTerm>,
    CompileError,
> {
    match *ci {
        ClassItem::FieldDecl(fd) => checked_optional(ctx, out, fd.assignment),
        ClassItem::MethodDecl(md) => match checked_var_decls(ctx, out, md.params@, 0) {
            Ok(o) => checked_statements(ctx, o, md.body@, 0),
            Err(err) => Err(err),
        },
    }
}

/// The record after the pass over `items[from..]`, in order.
pub open spec fn checked_class_items(
    ctx: AstView,
    out: Map<u32, TypeTerm>,
    items: Seq<ClassItem>,
    from: int,
) -> Result<Map<u32, TypeTerm>, CompileError>
    decreases items.len() - from,
{
    if 0 <= from < items.len() {
        match checked_class_item(ctx, out, &items[from]) {
            Ok(o) => checked_class_items(ctx, o, items, from + 1),
            Err(err) => Err(err),
        }
    } else {
        Ok(out)
    }
}

/// The record after the pass over the classes `items[from..]`, in order.
pub open spec fn checked_top_items(
    ctx: AstView,
    out: Map<u32, TypeTerm>,
    items: Seq<TopItem>,
    from: int,
) -> Result<Map<u32, TypeTerm>, CompileError>
    decreases items.len() - from,
{
    if 0 <= from < items.len() {
        match items[from] {
            TopItem::ClassDecl(cd) => match checked_class_items(ctx, out, cd.items@, 0) {
                Ok(o) => checked_top_items(ctx, o, items, from + 1),
                Err(err) => Err(err),
            },
        }
    } else {
        Ok(out)
    }
}

/// The types of the expressions of the program `p`, by label, or the reason
/// for which `p` is rejected: a fault of the preprocessing pass, or the
/// fault of the first expression that has one.
pub open spec fn checked(p: &Program) -> Result<Map<u32, TypeTerm>, CompileError> {
    match preprocessed(p) {
        Ok(ctx) => checked_top_items(ctx, Map::empty(), p.items@, 0),
        Err(err) => Err(err),
    }
}

/// The table of types after the type of the expression `e` itself is
/// found, where the types of its parts are known: a binary operation
/// resolves no type, a field access the declared type of the field, a call
/// the parameter types and the return type, and an expression without
/// parts what it resolves when asked about.
pub open spec fn own_table(ctx: AstView, table: Seq<Type>, e: &Expression) -> Seq<Type> {
    match *e {
        Expression::BinaryOp(_) => table,
        Expression::FieldAccess(fa) => match operand_term(ctx, &*fa.target) {
            Ok(target) => member_table(ctx, table, target, fa.field_name@),
            Err(_) => table,
        },
        Expression::MethodCall(mc) => known_call_table(ctx, table, &mc),
        _ => typing_table(ctx, table, e),
    }
}

/// The table of types after the pass over the expression `e`, where the
/// pass meets no fault: the table after the pass over the parts of `e` in
/// order and then over `e` itself.
pub open spec fn checked_table_expression(ctx: AstView, table: Seq<Type>, e: &Expression) -> Seq<
    Type,
>
    decreases e,
{
    let children = match *e {
        Expression::BinaryOp(b) => checked_table_expression(
            ctx,
            checked_table_expression(ctx, table, &*b.left),
            &*b.right,
        ),
        Expression::FieldAccess(fa) => checked_table_expression(ctx, table, &*fa.target),
        Expression::Literal(l) => match l.kind {
            LiteralKind::Array(_, elements) => checked_table_expressions(ctx, table, elements@, 0),
            _ => table,
        },
        Expression::MethodCall(mc) => checked_table_expressions(
            ctx,
            checked_table_expression(ctx, table, &*mc.target),
            mc.args@,
            0,
        ),
        _ => table,
    };
    own_table(ctx, children, e)
}

/// The table of types after the pass over `es[from..]`, in order.
pub open spec fn checked_table_expressions(
    ctx: AstView,
    table: Seq<Type>,
    es: Seq<Expression>,
    from: int,
) -> Seq<Type>
    decreases es, es.len() - from,
{
    if 0 <= from < es.len() {
        checked_table_expressions(ctx, checked_table_expression(ctx, table, &es[from]), es, from + 1)
    } else {
        table
    }
}

/// The table of types after the pass over an expression that may be absent.
pub open spec fn checked_table_optional(ctx: AstView, table: Seq<Type>, e: Option<Expression>) -> Seq<
    Type,
> {
    match e {
        Some(e) => checked_table_expression(ctx, table, &e),
        None => table,
    }
}

/// The table of types after the pass over the initializers of
/// `vds[from..]`.
pub open spec fn checked_table_var_decls(ctx: AstView, table: Seq<Type>, vds: Seq<VarDecl>, from: int) -> Seq<
    Type,
>
    decreases vds.len() - from,
{
    if 0 <= from < vds.len() {
        checked_table_var_decls(
            ctx,
            checked_table_optional(ctx, table, vds[from].expr),
            vds,
            from + 1,
        )
    } else {
        table
    }
}

/// The table of types after the pass over the expressions of the statement
/// `s`.
pub open spec fn checked_table_statement(ctx: AstView, table: Seq<Type>, s: &Statement) -> Seq<Type>
    decreases s,
{
    match *s {
        Statement::Assign(a) => checked_table_expression(ctx, table, &a.expr),
        Statement::Expression(e) => checked_table_expression(ctx, table, &e),
        Statement::Return(r) => checked_table_optional(ctx, table, r.expr),
        Statement::VarDecl(vd) => checked_table_optional(ctx, table, vd.expr),
        Statement::IfThenElse(ite) => checked_table_statements(
            ctx,
            checked_table_statements(
                ctx,
                checked_table_expression(ctx, table, &ite.condition),
                ite.then_block@,
                0,
            ),
            ite.else_block@,
            0,
        ),
    }
}

/// The table of types after the pass over `ss[from..]`, in order.
pub open spec fn checked_table_statements(
    ctx: AstView,
    table: Seq<Type>,
    ss: Seq<Statement>,
    from: int,
) -> Seq<Type>
    decreases ss, ss.len() - from,
{
    if 0 <= from < ss.len() {
        checked_table_statements(ctx, checked_table_statement(ctx, table, &ss[from]), ss, from + 1)
    } else {
        table
    }
}

/// The table of types after the pass over the class item `ci`.
pub open spec fn checked_table_class_item(ctx: AstView, table: Seq<Type>, ci: &ClassItem) -> Seq<
    Type,
> {
    match *ci {
        ClassItem::FieldDecl(fd) => checked_table_optional(ctx, table, fd.assignment),
        ClassItem::MethodDecl(md) => checked_table_statements(
            ctx,
            checked_table_var_decls(ctx, table, md.params@, 0),
            md.body@,
            0,
        ),
    }
}

/// The table of types after the pass over `items[from..]`, in order.
pub open spec fn checked_table_class_items(
    ctx: AstView,
    table: Seq<Type>,
    items: Seq<ClassItem>,
    from: int,
) -> Seq<Type>
    decreases items.len() - from,
{
    if 0 <= from < items.len() {
        checked_table_class_items(
            ctx,
            checked_table_class_item(ctx, table, &items[from]),
            items,
            from + 1,
        )
    } else {
        table
    }
}

/// The table of types after the pass over the classes `items[from..]`, in
/// order.
pub open spec fn checked_table_top_items(
    ctx: AstView,
    table: Seq<Type>,
    items: Seq<TopItem>,
    from: int,
) -> Seq<Type>
    decreases items.len() - from,
{
    if 0 <= from < items.len() {
        match items[from] {
            TopItem::ClassDecl(cd) => checked_table_top_items(
                ctx,
                checked_table_class_items(ctx, table, cd.items@, 0),
                items,
                from + 1,
            ),
        }
    } else {
        table
    }
}

/// The table of types that the pass over the program `p` gives where it
/// meets no fault: the table of the built-in types with the types that the
/// pass resolves behind them, in the order in which it resolves them.
pub open spec fn checked_table(p: &Program) -> Seq<Type> {
    checked_table_top_items(
        preprocessed(p).unwrap(),
        seq![Type::Int, Type::String, Type::Void, Type::Bool, Type::Console],
        p.items@,
        0,
    )
}

/// In a longer table the ids of a record stand for the same types.
proof fn lemma_terms_extend(new_table: Seq<Type>, old_table: Seq<Type>, m: Map<u32, TypeId>)
    requires
        table_wf(old_table),
        new_table.len() <= usize::MAX,
        extends(new_table, old_table),
        ids_valid(old_table, m),
    ensures
        ids_valid(new_table, m),
        terms_of(new_table, m) == terms_of(old_table, m),
{
    assert forall|l: u32| m.contains_key(l) implies valid_id(new_table, #[trigger] m[l]) && denotes(
        new_table,
        m[l],
    ) == denotes(old_table, m[l]) by {
        lemma_extends_denotes(new_table, old_table, m[l]);
    }
    assert(terms_of(new_table, m) =~= terms_of(old_table, m));
}

/// The state of the pass.
struct TypeckVisitor<'a> {
    engine: QueryEngine<'a>,
    output: HashMap<u32, TypeId>,
}

/// Whether a step of the pass that was to give `expected` ended in `result`
/// with the record `after`.
spec fn stepped(
    expected: Result<Map<u32, TypeTerm>, CompileError>,
    result: Result<(), CompileError>,
    after: Map<u32, TypeTerm>,
) -> bool {
    match expected {
        Ok(o) => result is Ok && after == o,
        Err(err) => result == Err::<(), CompileError>(err),
    }
}

impl<'a> TypeckVisitor<'a> {
    spec fn wf(&self) -> bool {
        &&& self.engine.wf()
        &&& table_wf(self.engine.type_table())
        &&& ids_valid(self.engine.type_table(), self.output@)
    }

    spec fn terms(&self) -> Map<u32, TypeTerm> {
        terms_of(self.engine.type_table(), self.output@)
    }

    spec fn ctx(&self) -> AstView<'a> {
        self.engine.tables()
    }

    /// Whether this state is what `before` has become by some steps that
    /// did not fail.
    spec fn follows(&self, before: TypeckVisitor<'a>) -> bool {
        self.wf() && self.engine.grown_from(before.engine)
    }

    /// Enters the type `ty` of the expression labelled `label`.
    fn record(&mut self, label: Label, ty: Option<TypeId>)
        requires
            old(self).wf(),
            ty matches Some(id) ==> valid_id(old(self).engine.type_table(), id),
        ensures
            final(self).wf(),
            final(self).engine == old(self).engine,
            final(self).terms() == recorded(
                old(self).terms(),
                label.0,
                match ty {
                    Some(id) => Some(denotes(old(self).engine.type_table(), id)),
                    None => None,
                },
            ),
    {
        match ty {
            Some(id) => {
                self.output.insert(label.0, id);
                assert(self.terms() =~= old(self).terms().insert(
                    label.0,
                    denotes(self.engine.type_table(), id),
                ));
            },
            None => {},
        }
    }

    fn visit_expression(&mut self, expr: &'a Expression) -> (r: Result<
        Option<TypeId>,
        CompileError,
    >)
        requires
            old(self).wf(),
        ensures
            match checked_expression(old(self).ctx(), old(self).terms(), expr) {
                Ok(o) => final(self).follows(*old(self)) && final(self).terms() == o
                    && final(self).engine.type_table() == checked_table_expression(
                    old(self).ctx(),
                    old(self).engine.type_table(),
                    expr,
                ) && r is Ok && answers(
                    final(self).engine.type_table(),
                    r,
                    type_term(old(self).ctx(), expr),
                ),
                Err(err) => r == Err::<Option<TypeId>, CompileError>(err),
            },
        decreases expr, 0int,
    {
        let ty = match expr {
            Expression::BinaryOp(bo) => {
                let left = self.visit_expression(&bo.left)?;
                let ghost mid = self.engine.type_table();
                let right = self.visit_expression(&bo.right)?;
                proof {
                    old(self).engine.lemma_wf();
                    self.engine.lemma_wf();
                    if left is Some {
                        lemma_extends_denotes(self.engine.type_table(), mid, left.unwrap());
                    }
                    lemma_extends_transitive(
                        self.engine.type_table(),
                        mid,
                        old(self).engine.type_table(),
                    );
                }
                self.engine.binary_op_rule(bo, left, right)?
            },
            Expression::FieldAccess(fa) => {
                let target = self.visit_expression(&fa.target)?;
                let ghost mid = self.engine.type_table();
                let ty = self.engine.field_access_rule(fa, target)?;
                proof {
                    self.engine.lemma_wf();
                    lemma_terms_extend(self.engine.type_table(), mid, self.output@);
                    lemma_extends_transitive(
                        self.engine.type_table(),
                        mid,
                        old(self).engine.type_table(),
                    );
                }
                ty
            },
            Expression::Literal(l) => {
                match &l.kind {
                    LiteralKind::Array(_, elements) => {
                        self.visit_expressions(elements)?;
                    },
                    _ => {},
                }
                let ghost mid = self.engine.type_table();
                let ty = self.engine.literal_type(l)?;
                proof {
                    self.engine.lemma_wf();
                    lemma_terms_extend(self.engine.type_table(), mid, self.output@);
                    lemma_extends_transitive(
                        self.engine.type_table(),
                        mid,
                        old(self).engine.type_table(),
                    );
                }
                ty
            },
            Expression::MethodCall(mc) => {
                let target = self.visit_expression(&mc.target)?;
                let ghost t1 = self.engine.type_table();
                let args = self.visit_arguments(&mc.args)?;
                let ghost t2 = self.engine.type_table();
                proof {
                    self.engine.lemma_wf();
                    if target is Some {
                        lemma_extends_denotes(t2, t1, target.unwrap());
                    }
                    lemma_extends_transitive(t2, t1, old(self).engine.type_table());
                }
                let ty = self.engine.method_call_rule(mc, target, &args)?;
                proof {
                    self.engine.lemma_wf();
                    lemma_terms_extend(self.engine.type_table(), t2, self.output@);
                    lemma_extends_transitive(self.engine.type_table(), t2, old(self).engine.type_table());
                }
                ty
            },
            Expression::New(n) => {
                let ghost mid = self.engine.type_table();
                let ty = self.engine.new_type(n)?;
                proof {
                    self.engine.lemma_wf();
                    lemma_terms_extend(self.engine.type_table(), mid, self.output@);
                }
                ty
            },
            Expression::Identifier(i) => {
                let ghost mid = self.engine.type_table();
                let ty = self.engine.identifier_type(i)?;
                proof {
                    self.engine.lemma_wf();
                    lemma_terms_extend(self.engine.type_table(), mid, self.output@);
                }
                ty
            },
            Expression::This(t) => {
                let ghost mid = self.engine.type_table();
                let ty = self.engine.this_type(t)?;
                proof {
                    self.engine.lemma_wf();
                    lemma_terms_extend(self.engine.type_table(), mid, self.output@);
                }
                ty
            },
        };
        self.record(expr.label().as_label(), ty);
        Ok(ty)
    }

    /// Walks over `exprs` and gives their types, in order.
    fn visit_arguments(&mut self, exprs: &'a Vec<Expression>) -> (r: Result<
        Vec<Option<TypeId>>,
        CompileError,
    >)
        requires
            old(self).wf(),
        ensures
            match checked_expressions(old(self).ctx(), old(self).terms(), exprs@, 0) {
                Ok(o) => {
                    &&& final(self).follows(*old(self))
                    &&& final(self).engine.type_table() == checked_table_expressions(
                        old(self).ctx(),
                        old(self).engine.type_table(),
                        exprs@,
                        0,
                    )
                    &&& final(self).terms() == o
                    &&& r matches Ok(tys)
                    &&& tys@.len() == exprs@.len()
                    &&& forall|k: int|
                        0 <= k < tys@.len() ==> answers(
                            final(self).engine.type_table(),
                            Ok::<Option<TypeId>, CompileError>(#[trigger] tys@[k]),
                            type_term(old(self).ctx(), &exprs@[k]),
                        )
                },
                Err(err) => r matches Err(e) && e == err,
            },
        decreases exprs, 0int,
    {
        let mut tys: Vec<Option<TypeId>> = Vec::new();
        let mut i: usize = 0;
        while i < exprs.len()
            invariant
                i <= exprs.len(),
                tys@.len() == i,
                self.follows(*old(self)),
                checked_table_expressions(self.ctx(), self.engine.type_table(), exprs@, i as int) == checked_table_expressions(
                    old(self).ctx(),
                    old(self).engine.type_table(),
                    exprs@,
                    0,
                ),
                checked_expressions(self.ctx(), self.terms(), exprs@, i as int)
                    == checked_expressions(old(self).ctx(), old(self).terms(), exprs@, 0),
                forall|k: int|
                    0 <= k < i ==> answers(
                        self.engine.type_table(),
                        Ok::<Option<TypeId>, CompileError>(#[trigger] tys@[k]),
                        type_term(self.ctx(), &exprs@[k]),
                    ),
            decreases exprs.len() - i,
        {
            let ghost before = self.engine.type_table();
            let ty = self.visit_expression(&exprs[i])?;
            proof {
                let table = self.engine.type_table();
                self.engine.lemma_wf();
                assert forall|k: int| 0 <= k < i implies answers(
                    table,
                    Ok::<Option<TypeId>, CompileError>(#[trigger] tys@[k]),
                    type_term(self.ctx(), &exprs@[k]),
                ) by {
                    if tys@[k] is Some {
                        lemma_extends_denotes(table, before, tys@[k].unwrap());
                    }
                }
                lemma_extends_transitive(table, before, old(self).engine.type_table());
            }
            tys.push(ty);
            i = i + 1;
        }
        Ok(tys)
    }

    fn visit_expressions(&mut self, exprs: &'a Vec<Expression>) -> (r: Result<(), CompileError>)
        requires
            old(self).wf(),
        ensures
            stepped(
                checked_expressions(old(self).ctx(), old(self).terms(), exprs@, 0),
                r,
                final(self).terms(),
            ),
            r is Ok ==> final(self).follows(*old(self)),
            r is Ok ==> final(self).engine.type_table() == checked_table_expressions(
                old(self).ctx(),
                old(self).engine.type_table(),
                exprs@,
                0,
            ),
        decreases exprs, 1int,
    {
        match self.visit_arguments(exprs) {
            Ok(_) => Ok(()),
            Err(e) => Err(e),
        }
    }

    fn visit_expression_only(&mut self, expr: &'a Expression) -> (r: Result<(), CompileError>)
        requires
            old(self).wf(),
        ensures
            stepped(
                checked_expression(old(self).ctx(), old(self).terms(), expr),
                r,
                final(self).terms(),
            ),
            r is Ok ==> final(self).follows(*old(self)),
            r is Ok ==> final(self).engine.type_table() == checked_table_expression(
                old(self).ctx(),
                old(self).engine.type_table(),
                expr,
            ),
    {
        match self.visit_expression(expr) {
            Ok(_) => Ok(()),
            Err(e) => Err(e),
        }
    }

    fn visit_optional(&mut self, expr: &'a Option<Expression>) -> (r: Result<(), CompileError>)
        requires
            old(self).wf(),
        ensures
            stepped(
                checked_optional(old(self).ctx(), old(self).terms(), *expr),
                r,
                final(self).terms(),
            ),
            r is Ok ==> final(self).follows(*old(self)),
            r is Ok ==> final(self).engine.type_table() == checked_table_optional(
                old(self).ctx(),
                old(self).engine.type_table(),
                *expr,
            ),
    {
        match expr {
            Some(e) => self.visit_expression_only(e),
            None => Ok(()),
        }
    }

    fn visit_var_decls(&mut self, var_decls: &'a Vec<VarDecl>) -> (r: Result<(), CompileError>)
        requires
            old(self).wf(),
        ensures
            stepped(
                checked_var_decls(old(self).ctx(), old(self).terms(), var_decls@, 0),
                r,
                final(self).terms(),
            ),
            r is Ok ==> final(self).follows(*old(self)),
            r is Ok ==> final(self).engine.type_table() == checked_table_var_decls(
                old(self).ctx(),
                old(self).engine.type_table(),
                var_decls@,
                0,
            ),
    {
        let mut i: usize = 0;
        while i < var_decls.len()
            invariant
                i <= var_decls.len(),
                self.follows(*old(self)),
                checked_table_var_decls(self.ctx(), self.engine.type_table(), var_decls@, i as int) == checked_table_var_decls(
                    old(self).ctx(),
                    old(self).engine.type_table(),
                    var_decls@,
                    0,
                ),
                checked_var_decls(self.ctx(), self.terms(), var_decls@, i as int)
                    == checked_var_decls(old(self).ctx(), old(self).terms(), var_decls@, 0),
            decreases var_decls.len() - i,
        {
            let ghost before = self.engine.type_table();
            self.visit_optional(&var_decls[i].expr)?;
            proof {
                lemma_extends_transitive(
                    self.engine.type_table(),
                    before,
                    old(self).engine.type_table(),
                );
            }
            i = i + 1;
        }
        Ok(())
    }

    fn visit_statement(&mut self, statement: &'a Statement) -> (r: Result<(), CompileError>)
        requires
            old(self).wf(),
        ensures
            stepped(
                checked_statement(old(self).ctx(), old(self).terms(), statement),
                r,
                final(self).terms(),
            ),
            r is Ok ==> final(self).follows(*old(self)),
            r is Ok ==> final(self).engine.type_table() == checked_table_statement(
                old(self).ctx(),
                old(self).engine.type_table(),
                statement,
            ),
        decreases statement,
    {
        match statement {
            Statement::Assign(a) => self.visit_expression_only(&a.expr),
            Statement::Expression(e) => self.visit_expression_only(e),
            Statement::Return(ret) => self.visit_optional(&ret.expr),
            Statement::VarDecl(vd) => self.visit_optional(&vd.expr),
            Statement::IfThenElse(ite) => {
                self.visit_expression_only(&ite.condition)?;
                let ghost t1 = self.engine.type_table();
                self.visit_statements(&ite.then_block)?;
                let ghost t2 = self.engine.type_table();
                self.visit_statements(&ite.else_block)?;
                proof {
                    lemma_extends_transitive(t2, t1, old(self).engine.type_table());
                    lemma_extends_transitive(
                        self.engine.type_table(),
                        t2,
                        old(self).engine.type_table(),
                    );
                }
                Ok(())
            },
        }
    }

    fn visit_statements(&mut self, statements: &'a Vec<Statement>) -> (r: Result<
        (),
        CompileError,
    >)
        requires
            old(self).wf(),
        ensures
            stepped(
                checked_statements(old(self).ctx(), old(self).terms(), statements@, 0),
                r,
                final(self).terms(),
            ),
            r is Ok ==> final(self).follows(*old(self)),
            r is Ok ==> final(self).engine.type_table() == checked_table_statements(
                old(self).ctx(),
                old(self).engine.type_table(),
                statements@,
                0,
            ),
        decreases statements,
    {
        let mut i: usize = 0;
        while i < statements.len()
            invariant
                i <= statements.len(),
                self.follows(*old(self)),
                checked_table_statements(self.ctx(), self.engine.type_table(), statements@, i as int) == checked_table_statements(
                    old(self).ctx(),
                    old(self).engine.type_table(),
                    statements@,
                    0,
                ),
                checked_statements(self.ctx(), self.terms(), statements@, i as int)
                    == checked_statements(old(self).ctx(), old(self).terms(), statements@, 0),
            decreases statements.len() - i,
        {
            let ghost before = self.engine.type_table();
            self.visit_statement(&statements[i])?;
            proof {
                lemma_extends_transitive(
                    self.engine.type_table(),
                    before,
                    old(self).engine.type_table(),
                );
            }
            i = i + 1;
        }
        Ok(())
    }

    fn visit_class_item(&mut self, class_item: &'a ClassItem) -> (r: Result<(), CompileError>)
        requires
            old(self).wf(),
        ensures
            stepped(
                checked_class_item(old(self).ctx(), old(self).terms(), class_item),
                r,
                final(self).terms(),
            ),
            r is Ok ==> final(self).follows(*old(self)),
            r is Ok ==> final(self).engine.type_table() == checked_table_class_item(
                old(self).ctx(),
                old(self).engine.type_table(),
                class_item,
            ),
    {
        match class_item {
            ClassItem::FieldDecl(fd) => self.visit_optional(&fd.assignment),
            ClassItem::MethodDecl(md) => {
                self.visit_var_decls(&md.params)?;
                let ghost mid = self.engine.type_table();
                self.visit_statements(&md.body)?;
                proof {
                    lemma_extends_transitive(
                        self.engine.type_table(),
                        mid,
                        old(self).engine.type_table(),
                    );
                }
                Ok(())
            },
        }
    }

    fn visit_class_decl(&mut self, decl: &'a ClassDecl) -> (r: Result<(), CompileError>)
        requires
            old(self).wf(),
        ensures
            stepped(
                checked_class_items(old(self).ctx(), old(self).terms(), decl.items@, 0),
                r,
                final(self).terms(),
            ),
            r is Ok ==> final(self).follows(*old(self)),
            r is Ok ==> final(self).engine.type_table() == checked_table_class_items(
                old(self).ctx(),
                old(self).engine.type_table(),
                decl.items@,
                0,
            ),
    {
        let mut i: usize = 0;
        while i < decl.items.len()
            invariant
                i <= decl.items.len(),
                self.follows(*old(self)),
                checked_table_class_items(self.ctx(), self.engine.type_table(), decl.items@, i as int) == checked_table_class_items(
                    old(self).ctx(),
                    old(self).engine.type_table(),
                    decl.items@,
                    0,
                ),
                checked_class_items(self.ctx(), self.terms(), decl.items@, i as int)
                    == checked_class_items(old(self).ctx(), old(self).terms(), decl.items@, 0),
            decreases decl.items.len() - i,
        {
            let ghost before = self.engine.type_table();
            self.visit_class_item(&decl.items[i])?;
            proof {
                lemma_extends_transitive(
                    self.engine.type_table(),
                    before,
                    old(self).engine.type_table(),
                );
            }
            i = i + 1;
        }
        Ok(())
    }

    fn visit_ast(&mut self, program: &'a Vec<TopItem>) -> (r: Result<(), CompileError>)
        requires
            old(self).wf(),
        ensures
            stepped(
                checked_top_items(old(self).ctx(), old(self).terms(), program@, 0),
                r,
                final(self).terms(),
            ),
            r is Ok ==> final(self).follows(*old(self)),
            r is Ok ==> final(self).engine.type_table() == checked_table_top_items(
                old(self).ctx(),
                old(self).engine.type_table(),
                program@,
                0,
            ),
    {
        let mut i: usize = 0;
        while i < program.len()
            invariant
                i <= program.len(),
                self.follows(*old(self)),
                checked_table_top_items(self.ctx(), self.engine.type_table(), program@, i as int) == checked_table_top_items(
                    old(self).ctx(),
                    old(self).engine.type_table(),
                    program@,
                    0,
                ),
                checked_top_items(self.ctx(), self.terms(), program@, i as int)
                    == checked_top_items(old(self).ctx(), old(self).terms(), program@, 0),
            decreases program.len() - i,
        {
            let ghost before = self.engine.type_table();
            match &program[i] {
                TopItem::ClassDecl(cd) => {
                    self.visit_class_decl(cd)?;
                },
            }
            proof {
                lemma_extends_transitive(
                    self.engine.type_table(),
                    before,
                    old(self).engine.type_table(),
                );
            }
            i = i + 1;
        }
        Ok(())
    }
}

/// Checks the types of every expression of `program`. Gives the type of
/// each expression that has one, by label, together with the table in which
/// the ids of those types are to be read; or the reason for which the
/// program is rejected. The table holds the built-in types and, behind
/// them, the types that the pass resolved, in the order in which it
/// resolved them.
pub fn check<'a>(program: &'a Program) -> (r: Result<(HashMap<u32, TypeId>, TypeMap), CompileError>)
    ensures
        match checked(program) {
            Ok(o) => r matches Ok(res) && res.1.wf() && ids_valid(res.1@, res.0@) && terms_of(
                res.1@,
                res.0@,
            ) == o && res.1@ == checked_table(program),
            Err(err) => r matches Err(e) && e == err,
        },
{
    let engine = QueryEngine::new(program)?;
    let mut visitor = TypeckVisitor { engine, output: HashMap::new() };
    proof {
        visitor.engine.lemma_wf();
        assert(visitor.terms() =~= Map::<u32, TypeTerm>::empty());
    }
    visitor.visit_ast(&program.items)?;
    let TypeckVisitor { engine, output } = visitor;
    Ok((output, engine.into_types()))
}

} // verus!
