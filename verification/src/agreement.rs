//! The two ways of finding types agree: what the pass over a whole program
//! records for an expression is what a question about that expression is
//! answered with.

use vstd::prelude::*;
use crate::ast::{ClassItem, Expression, LiteralKind, Program, Statement, TopItem, VarDecl};
use crate::coverage::{
    covers_class_item, covers_class_items, covers_expression, covers_expressions, covers_optional,
    covers_statement, covers_statements, covers_top_items, covers_var_decls,
    lemma_nodes_total_and_injective, node_of,
};
use crate::error::CompileError;
use crate::node::Node;
use crate::preprocess::{preprocessed, AstView};
use crate::type_checker::{
    checked, checked_class_item, checked_class_items, checked_expression, checked_expressions,
    checked_optional, checked_statement, checked_statements, checked_top_items, checked_var_decls,
};
use crate::type_map::TypeTerm;
use crate::typing::{label_term, type_term};

verus! {

/// Whether every type in the record `out` is the type that the expression
/// under the same label has.
pub open spec fn agrees(ctx: AstView, out: Map<u32, TypeTerm>) -> bool {
    forall|l: u32| #[trigger]
        out.contains_key(l) ==> label_term(ctx, l) == Ok::<Option<TypeTerm>, CompileError>(
            Some(out[l]),
        )
}

/// Whether `later` has a type for every label that `earlier` has one for.
pub open spec fn kept(earlier: Map<u32, TypeTerm>, later: Map<u32, TypeTerm>) -> bool {
    forall|l: u32| #[trigger] earlier.contains_key(l) ==> later.contains_key(l)
}

/// Whether the expression `e` and every expression in it has no fault, and
/// `out` has a type for each of them that has one.
pub open spec fn typed_expression(ctx: AstView, out: Map<u32, TypeTerm>, e: &Expression) -> bool
    decreases e,
{
    &&& type_term(ctx, e) is Ok
    &&& type_term(ctx, e) matches Ok(Some(_)) ==> out.contains_key(e.spec_label().0)
    &&& match *e {
        Expression::BinaryOp(b) => typed_expression(ctx, out, &*b.left) && typed_expression(
            ctx,
            out,
            &*b.right,
        ),
        Expression::FieldAccess(fa) => typed_expression(ctx, out, &*fa.target),
        Expression::Literal(l) => match l.kind {
            LiteralKind::Array(_, elements) => typed_expressions(ctx, out, elements@, 0),
            _ => true,
        },
        Expression::MethodCall(mc) => typed_expression(ctx, out, &*mc.target) && typed_expressions(
            ctx,
            out,
            mc.args@,
            0,
        ),
        _ => true,
    }
}

/// As `typed_expression`, for each of `es[from..]`.
pub open spec fn typed_expressions(
    ctx: AstView,
    out: Map<u32, TypeTerm>,
    es: Seq<Expression>,
    from: int,
) -> bool
    decreases es, es.len() - from,
{
    if 0 <= from < es.len() {
        typed_expression(ctx, out, &es[from]) && typed_expressions(ctx, out, es, from + 1)
    } else {
        true
    }
}

/// As `typed_expression`, for an expression that may be absent.
pub open spec fn typed_optional(ctx: AstView, out: Map<u32, TypeTerm>, e: Option<Expression>) -> bool {
    match e {
        Some(e) => typed_expression(ctx, out, &e),
        None => true,
    }
}

/// As `typed_expression`, for the initializers of `vds[from..]`.
pub open spec fn typed_var_decls(ctx: AstView, out: Map<u32, TypeTerm>, vds: Seq<VarDecl>, from: int) -> bool
    decreases vds.len() - from,
{
    if 0 <= from < vds.len() {
        typed_optional(ctx, out, vds[from].expr) && typed_var_decls(ctx, out, vds, from + 1)
    } else {
        true
    }
}

/// As `typed_expression`, for the expressions of the statement `s`.
pub open spec fn typed_statement(ctx: AstView, out: Map<u32, TypeTerm>, s: &Statement) -> bool
    decreases s,
{
    match *s {
        Statement::Assign(a) => typed_expression(ctx, out, &a.expr),
        Statement::Expression(e) => typed_expression(ctx, out, &e),
        Statement::Return(r) => typed_optional(ctx, out, r.expr),
        Statement::VarDecl(vd) => typed_optional(ctx, out, vd.expr),
        Statement::IfThenElse(ite) => {
            &&& typed_expression(ctx, out, &ite.condition)
            &&& typed_statements(ctx, out, ite.then_block@, 0)
            &&& typed_statements(ctx, out, ite.else_block@, 0)
        },
    }
}

/// As `typed_expression`, for the expressions of `ss[from..]`.
pub open spec fn typed_statements(
    ctx: AstView,
    out: Map<u32, TypeTerm>,
    ss: Seq<Statement>,
    from: int,
) -> bool
    decreases ss, ss.len() - from,
{
    if 0 <= from < ss.len() {
        typed_statement(ctx, out, &ss[from]) && typed_statements(ctx, out, ss, from + 1)
    } else {
        true
    }
}

/// As `typed_expression`, for the expressions of the class item `ci`.
pub open spec fn typed_class_item(ctx: AstView, out: Map<u32, TypeTerm>, ci: &ClassItem) -> bool {
    match *ci {
        ClassItem::FieldDecl(fd) => typed_optional(ctx, out, fd.assignment),
        ClassItem::MethodDecl(md) => typed_var_decls(ctx, out, md.params@, 0) && typed_statements(
            ctx,
            out,
            md.body@,
            0,
        ),
    }
}

/// As `typed_expression`, for the expressions of `items[from..]`.
pub open spec fn typed_class_items(
    ctx: AstView,
    out: Map<u32, TypeTerm>,
    items: Seq<ClassItem>,
    from: int,
) -> bool
    decreases items.len() - from,
{
    if 0 <= from < items.len() {
        typed_class_item(ctx, out, &items[from]) && typed_class_items(ctx, out, items, from + 1)
    } else {
        true
    }
}

/// As `typed_expression`, for the expressions of the classes
/// `items[from..]`.
pub open spec fn typed_top_items(
    ctx: AstView,
    out: Map<u32, TypeTerm>,
    items: Seq<TopItem>,
    from: int,
) -> bool
    decreases items.len() - from,
{
    if 0 <= from < items.len() {
        match items[from] {
            TopItem::ClassDecl(cd) => typed_class_items(ctx, out, cd.items@, 0) && typed_top_items(
                ctx,
                out,
                items,
                from + 1,
            ),
        }
    } else {
        true
    }
}

proof fn lemma_kept_chain(a: Map<u32, TypeTerm>, b: Map<u32, TypeTerm>, c: Map<u32, TypeTerm>)
    requires
        kept(a, b),
        kept(b, c),
    ensures
        kept(a, c),
{
    assert forall|l: u32| #[trigger] a.contains_key(l) implies c.contains_key(l) by {
        assert(b.contains_key(l));
    }
}

proof fn lemma_typed_expression_kept(
    ctx: AstView,
    a: Map<u32, TypeTerm>,
    b: Map<u32, TypeTerm>,
    e: &Expression,
)
    requires
        typed_expression(ctx, a, e),
        kept(a, b),
    ensures
        typed_expression(ctx, b, e),
    decreases e,
{
    if type_term(ctx, e) matches Ok(Some(_)) {
        assert(a.contains_key(e.spec_label().0));
    }
    match *e {
        Expression::BinaryOp(x) => {
            lemma_typed_expression_kept(ctx, a, b, &*x.left);
            lemma_typed_expression_kept(ctx, a, b, &*x.right);
        },
        Expression::FieldAccess(fa) => {
            lemma_typed_expression_kept(ctx, a, b, &*fa.target);
        },
        Expression::Literal(l) => match l.kind {
            LiteralKind::Array(_, elements) => {
                lemma_typed_expressions_kept(ctx, a, b, elements@, 0);
            },
            _ => {},
        },
        Expression::MethodCall(mc) => {
            lemma_typed_expression_kept(ctx, a, b, &*mc.target);
            lemma_typed_expressions_kept(ctx, a, b, mc.args@, 0);
        },
        _ => {},
    }
}

proof fn lemma_typed_expressions_kept(
    ctx: AstView,
    a: Map<u32, TypeTerm>,
    b: Map<u32, TypeTerm>,
    es: Seq<Expression>,
    from: int,
)
    requires
        typed_expressions(ctx, a, es, from),
        kept(a, b),
    ensures
        typed_expressions(ctx, b, es, from),
    decreases es, es.len() - from,
{
    if 0 <= from < es.len() {
        lemma_typed_expression_kept(ctx, a, b, &es[from]);
        lemma_typed_expressions_kept(ctx, a, b, es, from + 1);
    }
}

proof fn lemma_typed_optional_kept(
    ctx: AstView,
    a: Map<u32, TypeTerm>,
    b: Map<u32, TypeTerm>,
    e: Option<Expression>,
)
    requires
        typed_optional(ctx, a, e),
        kept(a, b),
    ensures
        typed_optional(ctx, b, e),
{
    match e {
        Some(e) => {
            lemma_typed_expression_kept(ctx, a, b, &e);
        },
        None => {},
    }
}

proof fn lemma_typed_var_decls_kept(
    ctx: AstView,
    a: Map<u32, TypeTerm>,
    b: Map<u32, TypeTerm>,
    vds: Seq<VarDecl>,
    from: int,
)
    requires
        typed_var_decls(ctx, a, vds, from),
        kept(a, b),
    ensures
        typed_var_decls(ctx, b, vds, from),
    decreases vds.len() - from,
{
    if 0 <= from < vds.len() {
        lemma_typed_optional_kept(ctx, a, b, vds[from].expr);
        lemma_typed_var_decls_kept(ctx, a, b, vds, from + 1);
    }
}

proof fn lemma_typed_statement_kept(
    ctx: AstView,
    a: Map<u32, TypeTerm>,
    b: Map<u32, TypeTerm>,
    s: &Statement,
)
    requires
        typed_statement(ctx, a, s),
        kept(a, b),
    ensures
        typed_statement(ctx, b, s),
    decreases s,
{
    match *s {
        Statement::Assign(x) => {
            lemma_typed_expression_kept(ctx, a, b, &x.expr);
        },
        Statement::Expression(e) => {
            lemma_typed_expression_kept(ctx, a, b, &e);
        },
        Statement::Return(r) => {
            lemma_typed_optional_kept(ctx, a, b, r.expr);
        },
        Statement::VarDecl(vd) => {
            lemma_typed_optional_kept(ctx, a, b, vd.expr);
        },
        Statement::IfThenElse(ite) => {
            lemma_typed_expression_kept(ctx, a, b, &ite.condition);
            lemma_typed_statements_kept(ctx, a, b, ite.then_block@, 0);
            lemma_typed_statements_kept(ctx, a, b, ite.else_block@, 0);
        },
    }
}

proof fn lemma_typed_statements_kept(
    ctx: AstView,
    a: Map<u32, TypeTerm>,
    b: Map<u32, TypeTerm>,
    ss: Seq<Statement>,
    from: int,
)
    requires
        typed_statements(ctx, a, ss, from),
        kept(a, b),
    ensures
        typed_statements(ctx, b, ss, from),
    decreases ss, ss.len() - from,
{
    if 0 <= from < ss.len() {
        lemma_typed_statement_kept(ctx, a, b, &ss[from]);
        lemma_typed_statements_kept(ctx, a, b, ss, from + 1);
    }
}

proof fn lemma_typed_class_item_kept(
    ctx: AstView,
    a: Map<u32, TypeTerm>,
    b: Map<u32, TypeTerm>,
    ci: &ClassItem,
)
    requires
        typed_class_item(ctx, a, ci),
        kept(a, b),
    ensures
        typed_class_item(ctx, b, ci),
{
    match *ci {
        ClassItem::FieldDecl(fd) => {
            lemma_typed_optional_kept(ctx, a, b, fd.assignment);
        },
        ClassItem::MethodDecl(md) => {
            lemma_typed_var_decls_kept(ctx, a, b, md.params@, 0);
            lemma_typed_statements_kept(ctx, a, b, md.body@, 0);
        },
    }
}

proof fn lemma_typed_class_items_kept(
    ctx: AstView,
    a: Map<u32, TypeTerm>,
    b: Map<u32, TypeTerm>,
    items: Seq<ClassItem>,
    from: int,
)
    requires
        typed_class_items(ctx, a, items, from),
        kept(a, b),
    ensures
        typed_class_items(ctx, b, items, from),
    decreases items.len() - from,
{
    if 0 <= from < items.len() {
        lemma_typed_class_item_kept(ctx, a, b, &items[from]);
        lemma_typed_class_items_kept(ctx, a, b, items, from + 1);
    }
}

/// The type of an expression that the tables hold is the type of the node
/// under its label.
proof fn lemma_label_term(ctx: AstView, e: &Expression)
    requires
        covers_expression(ctx.nodes, e),
    ensures
        label_term(ctx, e.spec_label().0) == type_term(ctx, e),
{
    assert(ctx.nodes[e.spec_label().0] == node_of(e));
    match *e {
        Expression::BinaryOp(x) => {
            assert(Expression::BinaryOp(x) == *e);
        },
        Expression::FieldAccess(x) => {
            assert(Expression::FieldAccess(x) == *e);
        },
        Expression::Literal(x) => {
            assert(Expression::Literal(x) == *e);
        },
        Expression::MethodCall(x) => {
            assert(Expression::MethodCall(x) == *e);
        },
        Expression::New(x) => {
            assert(Expression::New(x) == *e);
        },
        Expression::Identifier(x) => {
            assert(Expression::Identifier(x) == *e);
        },
        Expression::This(x) => {
            assert(Expression::This(x) == *e);
        },
    }
}

/// Whether `o2` is what a step of the pass can make of `o`.
spec fn advanced(ctx: AstView, o: Map<u32, TypeTerm>, o2: Map<u32, TypeTerm>) -> bool {
    agrees(ctx, o2) && kept(o, o2)
}

proof fn lemma_checked_expression(ctx: AstView, o: Map<u32, TypeTerm>, e: &Expression)
    requires
        agrees(ctx, o),
        covers_expression(ctx.nodes, e),
        checked_expression(ctx, o, e) is Ok,
    ensures
        advanced(ctx, o, checked_expression(ctx, o, e).unwrap()),
        typed_expression(ctx, checked_expression(ctx, o, e).unwrap(), e),
    decreases e,
{
    let fin = checked_expression(ctx, o, e).unwrap();
    lemma_label_term(ctx, e);
    match *e {
        Expression::BinaryOp(b) => {
            let o1 = checked_expression(ctx, o, &*b.left).unwrap();
            lemma_checked_expression(ctx, o, &*b.left);
            let o2 = checked_expression(ctx, o1, &*b.right).unwrap();
            lemma_checked_expression(ctx, o1, &*b.right);
            lemma_kept_chain(o, o1, o2);
            assert(kept(o2, fin));
            lemma_kept_chain(o, o2, fin);
            lemma_kept_chain(o1, o2, fin);
            lemma_typed_expression_kept(ctx, o1, fin, &*b.left);
            lemma_typed_expression_kept(ctx, o2, fin, &*b.right);
        },
        Expression::FieldAccess(fa) => {
            let o1 = checked_expression(ctx, o, &*fa.target).unwrap();
            lemma_checked_expression(ctx, o, &*fa.target);
            assert(kept(o1, fin));
            lemma_kept_chain(o, o1, fin);
            lemma_typed_expression_kept(ctx, o1, fin, &*fa.target);
        },
        Expression::Literal(l) => match l.kind {
            LiteralKind::Array(_, elements) => {
                let o1 = checked_expressions(ctx, o, elements@, 0).unwrap();
                lemma_checked_expressions(ctx, o, elements@, 0);
                assert(kept(o1, fin));
                lemma_kept_chain(o, o1, fin);
                lemma_typed_expressions_kept(ctx, o1, fin, elements@, 0);
            },
            _ => {
                assert(kept(o, fin));
            },
        },
        Expression::MethodCall(mc) => {
            let o1 = checked_expression(ctx, o, &*mc.target).unwrap();
            lemma_checked_expression(ctx, o, &*mc.target);
            let o2 = checked_expressions(ctx, o1, mc.args@, 0).unwrap();
            lemma_checked_expressions(ctx, o1, mc.args@, 0);
            lemma_kept_chain(o, o1, o2);
            assert(kept(o2, fin));
            lemma_kept_chain(o, o2, fin);
            lemma_kept_chain(o1, o2, fin);
            lemma_typed_expression_kept(ctx, o1, fin, &*mc.target);
            lemma_typed_expressions_kept(ctx, o2, fin, mc.args@, 0);
        },
        _ => {
            assert(kept(o, fin));
        },
    }
}

proof fn lemma_checked_expressions(
    ctx: AstView,
    o: Map<u32, TypeTerm>,
    es: Seq<Expression>,
    from: int,
)
    requires
        0 <= from,
        agrees(ctx, o),
        covers_expressions(ctx.nodes, es, from),
        checked_expressions(ctx, o, es, from) is Ok,
    ensures
        advanced(ctx, o, checked_expressions(ctx, o, es, from).unwrap()),
        typed_expressions(ctx, checked_expressions(ctx, o, es, from).unwrap(), es, from),
    decreases es, es.len() - from,
{
    if from < es.len() {
        let fin = checked_expressions(ctx, o, es, from).unwrap();
        let o1 = checked_expression(ctx, o, &es[from]).unwrap();
        lemma_checked_expression(ctx, o, &es[from]);
        lemma_checked_expressions(ctx, o1, es, from + 1);
        lemma_kept_chain(o, o1, fin);
        lemma_typed_expression_kept(ctx, o1, fin, &es[from]);
    }
}

proof fn lemma_checked_optional(ctx: AstView, o: Map<u32, TypeTerm>, e: Option<Expression>)
    requires
        agrees(ctx, o),
        covers_optional(ctx.nodes, e),
        checked_optional(ctx, o, e) is Ok,
    ensures
        advanced(ctx, o, checked_optional(ctx, o, e).unwrap()),
        typed_optional(ctx, checked_optional(ctx, o, e).unwrap(), e),
{
    match e {
        Some(e) => {
            lemma_checked_expression(ctx, o, &e);
        },
        None => {},
    }
}

proof fn lemma_checked_var_decls(ctx: AstView, o: Map<u32, TypeTerm>, vds: Seq<VarDecl>, from: int)
    requires
        0 <= from,
        agrees(ctx, o),
        covers_var_decls(ctx.nodes, vds, from),
        checked_var_decls(ctx, o, vds, from) is Ok,
    ensures
        advanced(ctx, o, checked_var_decls(ctx, o, vds, from).unwrap()),
        typed_var_decls(ctx, checked_var_decls(ctx, o, vds, from).unwrap(), vds, from),
    decreases vds.len() - from,
{
    if from < vds.len() {
        let fin = checked_var_decls(ctx, o, vds, from).unwrap();
        let o1 = checked_optional(ctx, o, vds[from].expr).unwrap();
        lemma_checked_optional(ctx, o, vds[from].expr);
        lemma_checked_var_decls(ctx, o1, vds, from + 1);
        lemma_kept_chain(o, o1, fin);
        lemma_typed_optional_kept(ctx, o1, fin, vds[from].expr);
    }
}

proof fn lemma_checked_statement(ctx: AstView, o: Map<u32, TypeTerm>, s: &Statement)
    requires
        agrees(ctx, o),
        covers_statement(ctx.nodes, s),
        checked_statement(ctx, o, s) is Ok,
    ensures
        advanced(ctx, o, checked_statement(ctx, o, s).unwrap()),
        typed_statement(ctx, checked_statement(ctx, o, s).unwrap(), s),
    decreases s,
{
    let fin = checked_statement(ctx, o, s).unwrap();
    match *s {
        Statement::Assign(a) => {
            lemma_checked_expression(ctx, o, &a.expr);
        },
        Statement::Expression(e) => {
            lemma_checked_expression(ctx, o, &e);
        },
        Statement::Return(r) => {
            lemma_checked_optional(ctx, o, r.expr);
        },
        Statement::VarDecl(vd) => {
            lemma_checked_optional(ctx, o, vd.expr);
        },
        Statement::IfThenElse(ite) => {
            let o1 = checked_expression(ctx, o, &ite.condition).unwrap();
            lemma_checked_expression(ctx, o, &ite.condition);
            let o2 = checked_statements(ctx, o1, ite.then_block@, 0).unwrap();
            lemma_checked_statements(ctx, o1, ite.then_block@, 0);
            lemma_checked_statements(ctx, o2, ite.else_block@, 0);
            lemma_kept_chain(o1, o2, fin);
            lemma_kept_chain(o, o1, fin);
            lemma_typed_expression_kept(ctx, o1, fin, &ite.condition);
            lemma_typed_statements_kept(ctx, o2, fin, ite.then_block@, 0);
        },
    }
}

proof fn lemma_checked_statements(
    ctx: AstView,
    o: Map<u32, TypeTerm>,
    ss: Seq<Statement>,
    from: int,
)
    requires
        0 <= from,
        agrees(ctx, o),
        covers_statements(ctx.nodes, ss, from),
        checked_statements(ctx, o, ss, from) is Ok,
    ensures
        advanced(ctx, o, checked_statements(ctx, o, ss, from).unwrap()),
        typed_statements(ctx, checked_statements(ctx, o, ss, from).unwrap(), ss, from),
    decreases ss, ss.len() - from,
{
    if from < ss.len() {
        let fin = checked_statements(ctx, o, ss, from).unwrap();
        let o1 = checked_statement(ctx, o, &ss[from]).unwrap();
        lemma_checked_statement(ctx, o, &ss[from]);
        lemma_checked_statements(ctx, o1, ss, from + 1);
        lemma_kept_chain(o, o1, fin);
        lemma_typed_statement_kept(ctx, o1, fin, &ss[from]);
    }
}

proof fn lemma_checked_class_item(ctx: AstView, o: Map<u32, TypeTerm>, ci: &ClassItem)
    requires
        agrees(ctx, o),
        covers_class_item(ctx.nodes, ci),
        checked_class_item(ctx, o, ci) is Ok,
    ensures
        advanced(ctx, o, checked_class_item(ctx, o, ci).unwrap()),
        typed_class_item(ctx, checked_class_item(ctx, o, ci).unwrap(), ci),
{
    let fin = checked_class_item(ctx, o, ci).unwrap();
    match *ci {
        ClassItem::FieldDecl(fd) => {
            lemma_checked_optional(ctx, o, fd.assignment);
        },
        ClassItem::MethodDecl(md) => {
            let o1 = checked_var_decls(ctx, o, md.params@, 0).unwrap();
            lemma_checked_var_decls(ctx, o, md.params@, 0);
            lemma_checked_statements(ctx, o1, md.body@, 0);
            lemma_kept_chain(o, o1, fin);
            lemma_typed_var_decls_kept(ctx, o1, fin, md.params@, 0);
        },
    }
}

proof fn lemma_checked_class_items(
    ctx: AstView,
    o: Map<u32, TypeTerm>,
    items: Seq<ClassItem>,
    from: int,
)
    requires
        0 <= from,
        agrees(ctx, o),
        covers_class_items(ctx.nodes, items, from),
        checked_class_items(ctx, o, items, from) is Ok,
    ensures
        advanced(ctx, o, checked_class_items(ctx, o, items, from).unwrap()),
        typed_class_items(ctx, checked_class_items(ctx, o, items, from).unwrap(), items, from),
    decreases items.len() - from,
{
    if from < items.len() {
        let fin = checked_class_items(ctx, o, items, from).unwrap();
        let o1 = checked_class_item(ctx, o, &items[from]).unwrap();
        lemma_checked_class_item(ctx, o, &items[from]);
        lemma_checked_class_items(ctx, o1, items, from + 1);
        lemma_kept_chain(o, o1, fin);
        lemma_typed_class_item_kept(ctx, o1, fin, &items[from]);
    }
}

proof fn lemma_typed_top_items_kept(
    ctx: AstView,
    a: Map<u32, TypeTerm>,
    b: Map<u32, TypeTerm>,
    items: Seq<TopItem>,
    from: int,
)
    requires
        typed_top_items(ctx, a, items, from),
        kept(a, b),
    ensures
        typed_top_items(ctx, b, items, from),
    decreases items.len() - from,
{
    if 0 <= from < items.len() {
        match items[from] {
            TopItem::ClassDecl(cd) => {
                lemma_typed_class_items_kept(ctx, a, b, cd.items@, 0);
                lemma_typed_top_items_kept(ctx, a, b, items, from + 1);
            },
        }
    }
}

proof fn lemma_checked_top_items(
    ctx: AstView,
    o: Map<u32, TypeTerm>,
    items: Seq<TopItem>,
    from: int,
)
    requires
        0 <= from,
        agrees(ctx, o),
        covers_top_items(ctx.nodes, items, from),
        checked_top_items(ctx, o, items, from) is Ok,
    ensures
        advanced(ctx, o, checked_top_items(ctx, o, items, from).unwrap()),
        typed_top_items(ctx, checked_top_items(ctx, o, items, from).unwrap(), items, from),
    decreases items.len() - from,
{
    if from < items.len() {
        let fin = checked_top_items(ctx, o, items, from).unwrap();
        match items[from] {
            TopItem::ClassDecl(cd) => {
                let o1 = checked_class_items(ctx, o, cd.items@, 0).unwrap();
                lemma_checked_class_items(ctx, o, cd.items@, 0);
                lemma_checked_top_items(ctx, o1, items, from + 1);
                lemma_kept_chain(o, o1, fin);
                lemma_typed_class_items_kept(ctx, o1, fin, cd.items@, 0);
            },
        }
    }
}

/// Where the pass over the whole program `p` succeeds, every type that it
/// records is the type that the question about the expression under the
/// same label is answered with; and every expression of `p` has an answer
/// without fault, and a record if the answer is a type.
pub proof fn lemma_paths_agree(p: &Program)
    requires
        checked(p) is Ok,
    ensures
        preprocessed(p) is Ok,
        agrees(preprocessed(p).unwrap(), checked(p).unwrap()),
        typed_top_items(preprocessed(p).unwrap(), checked(p).unwrap(), p.items@, 0),
{
    lemma_nodes_total_and_injective(p);
    lemma_checked_top_items(preprocessed(p).unwrap(), Map::empty(), p.items@, 0);
}

/// Where the pass over the whole program `p` succeeds, an expression that
/// the tables hold and for which the pass has a record has the recorded
/// type, and one for which it has no record has no type.
pub proof fn lemma_record_is_answer(p: &Program, e: &Expression)
    requires
        checked(p) is Ok,
        covers_expression(preprocessed(p).unwrap().nodes, e),
        type_term(preprocessed(p).unwrap(), e) is Ok,
    ensures
        checked(p).unwrap().contains_key(e.spec_label().0) ==> type_term(
            preprocessed(p).unwrap(),
            e,
        ) == Ok::<Option<TypeTerm>, CompileError>(Some(checked(p).unwrap()[e.spec_label().0])),
{
    lemma_paths_agree(p);
    lemma_label_term(preprocessed(p).unwrap(), e);
}

/// Whether `x` is the expression `e` or an expression in it.
pub open spec fn occurs_in_expression(e: &Expression, x: &Expression) -> bool
    decreases e,
{
    ||| *x == *e
    ||| match *e {
        Expression::BinaryOp(b) => occurs_in_expression(&*b.left, x) || occurs_in_expression(
            &*b.right,
            x,
        ),
        Expression::FieldAccess(fa) => occurs_in_expression(&*fa.target, x),
        Expression::Literal(l) => match l.kind {
            LiteralKind::Array(_, elements) => occurs_in_expressions(elements@, 0, x),
            _ => false,
        },
        Expression::MethodCall(mc) => occurs_in_expression(&*mc.target, x) || occurs_in_expressions(
            mc.args@,
            0,
            x,
        ),
        _ => false,
    }
}

/// Whether `x` occurs in one of `es[from..]`.
pub open spec fn occurs_in_expressions(es: Seq<Expression>, from: int, x: &Expression) -> bool
    decreases es, es.len() - from,
{
    if 0 <= from < es.len() {
        occurs_in_expression(&es[from], x) || occurs_in_expressions(es, from + 1, x)
    } else {
        false
    }
}

/// Whether `x` occurs in an expression that may be absent.
pub open spec fn occurs_in_optional(e: Option<Expression>, x: &Expression) -> bool {
    match e {
        Some(e) => occurs_in_expression(&e, x),
        None => false,
    }
}

/// Whether `x` occurs in the initializer of one of `vds[from..]`.
pub open spec fn occurs_in_var_decls(vds: Seq<VarDecl>, from: int, x: &Expression) -> bool
    decreases vds.len() - from,
{
    if 0 <= from < vds.len() {
        occurs_in_optional(vds[from].expr, x) || occurs_in_var_decls(vds, from + 1, x)
    } else {
        false
    }
}

/// Whether `x` occurs in the statement `s`.
pub open spec fn occurs_in_statement(s: &Statement, x: &Expression) -> bool
    decreases s,
{
    match *s {
        Statement::Assign(a) => occurs_in_expression(&a.expr, x),
        Statement::Expression(e) => occurs_in_expression(&e, x),
        Statement::Return(r) => occurs_in_optional(r.expr, x),
        Statement::VarDecl(vd) => occurs_in_optional(vd.expr, x),
        Statement::IfThenElse(ite) => {
            ||| occurs_in_expression(&ite.condition, x)
            ||| occurs_in_statements(ite.then_block@, 0, x)
            ||| occurs_in_statements(ite.else_block@, 0, x)
        },
    }
}

/// Whether `x` occurs in one of `ss[from..]`.
pub open spec fn occurs_in_statements(ss: Seq<Statement>, from: int, x: &Expression) -> bool
    decreases ss, ss.len() - from,
{
    if 0 <= from < ss.len() {
        occurs_in_statement(&ss[from], x) || occurs_in_statements(ss, from + 1, x)
    } else {
        false
    }
}

/// Whether `x` occurs in the class item `ci`.
pub open spec fn occurs_in_class_item(ci: &ClassItem, x: &Expression) -> bool {
    match *ci {
        ClassItem::FieldDecl(fd) => occurs_in_optional(fd.assignment, x),
        ClassItem::MethodDecl(md) => occurs_in_var_decls(md.params@, 0, x) || occurs_in_statements(
            md.body@,
            0,
            x,
        ),
    }
}

/// Whether `x` occurs in one of `items[from..]`.
pub open spec fn occurs_in_class_items(items: Seq<ClassItem>, from: int, x: &Expression) -> bool
    decreases items.len() - from,
{
    if 0 <= from < items.len() {
        occurs_in_class_item(&items[from], x) || occurs_in_class_items(items, from + 1, x)
    } else {
        false
    }
}

/// Whether `x` occurs in one of the classes `items[from..]`.
pub open spec fn occurs_in_top_items(items: Seq<TopItem>, from: int, x: &Expression) -> bool
    decreases items.len() - from,
{
    if 0 <= from < items.len() {
        match items[from] {
            TopItem::ClassDecl(cd) => occurs_in_class_items(cd.items@, 0, x) || occurs_in_top_items(
                items,
                from + 1,
                x,
            ),
        }
    } else {
        false
    }
}

/// Whether `x` is an expression with the fault `err`.
spec fn faulty(ctx: AstView, x: Expression, err: CompileError) -> bool {
    type_term(ctx, &x) == Err::<Option<TypeTerm>, CompileError>(err)
}

proof fn lemma_fault_in_expression(ctx: AstView, o: Map<u32, TypeTerm>, e: &Expression) -> (x:
    Expression)
    requires
        checked_expression(ctx, o, e) is Err,
    ensures
        occurs_in_expression(e, &x),
        faulty(ctx, x, checked_expression(ctx, o, e)->Err_0),
    decreases e,
{
    match *e {
        Expression::BinaryOp(b) => {
            if checked_expression(ctx, o, &*b.left) is Err {
                lemma_fault_in_expression(ctx, o, &*b.left)
            } else {
                let o1 = checked_expression(ctx, o, &*b.left).unwrap();
                if checked_expression(ctx, o1, &*b.right) is Err {
                    lemma_fault_in_expression(ctx, o1, &*b.right)
                } else {
                    *e
                }
            }
        },
        Expression::FieldAccess(fa) => {
            if checked_expression(ctx, o, &*fa.target) is Err {
                lemma_fault_in_expression(ctx, o, &*fa.target)
            } else {
                *e
            }
        },
        Expression::Literal(l) => match l.kind {
            LiteralKind::Array(_, elements) => {
                if checked_expressions(ctx, o, elements@, 0) is Err {
                    lemma_fault_in_expressions(ctx, o, elements@, 0)
                } else {
                    *e
                }
            },
            _ => *e,
        },
        Expression::MethodCall(mc) => {
            if checked_expression(ctx, o, &*mc.target) is Err {
                lemma_fault_in_expression(ctx, o, &*mc.target)
            } else {
                let o1 = checked_expression(ctx, o, &*mc.target).unwrap();
                if checked_expressions(ctx, o1, mc.args@, 0) is Err {
                    lemma_fault_in_expressions(ctx, o1, mc.args@, 0)
                } else {
                    *e
                }
            }
        },
        _ => *e,
    }
}

proof fn lemma_fault_in_expressions(
    ctx: AstView,
    o: Map<u32, TypeTerm>,
    es: Seq<Expression>,
    from: int,
) -> (x: Expression)
    requires
        0 <= from,
        checked_expressions(ctx, o, es, from) is Err,
    ensures
        occurs_in_expressions(es, from, &x),
        faulty(ctx, x, checked_expressions(ctx, o, es, from)->Err_0),
    decreases es, es.len() - from,
{
    if checked_expression(ctx, o, &es[from]) is Err {
        lemma_fault_in_expression(ctx, o, &es[from])
    } else {
        lemma_fault_in_expressions(
            ctx,
            checked_expression(ctx, o, &es[from]).unwrap(),
            es,
            from + 1,
        )
    }
}

proof fn lemma_fault_in_optional(ctx: AstView, o: Map<u32, TypeTerm>, e: Option<Expression>) -> (x:
    Expression)
    requires
        checked_optional(ctx, o, e) is Err,
    ensures
        occurs_in_optional(e, &x),
        faulty(ctx, x, checked_optional(ctx, o, e)->Err_0),
{
    lemma_fault_in_expression(ctx, o, &e.unwrap())
}

proof fn lemma_fault_in_var_decls(ctx: AstView, o: Map<u32, TypeTerm>, vds: Seq<VarDecl>, from: int) -> (x:
    Expression)
    requires
        0 <= from,
        checked_var_decls(ctx, o, vds, from) is Err,
    ensures
        occurs_in_var_decls(vds, from, &x),
        faulty(ctx, x, checked_var_decls(ctx, o, vds, from)->Err_0),
    decreases vds.len() - from,
{
    if checked_optional(ctx, o, vds[from].expr) is Err {
        lemma_fault_in_optional(ctx, o, vds[from].expr)
    } else {
        lemma_fault_in_var_decls(
            ctx,
            checked_optional(ctx, o, vds[from].expr).unwrap(),
            vds,
            from + 1,
        )
    }
}

proof fn lemma_fault_in_statement(ctx: AstView, o: Map<u32, TypeTerm>, s: &Statement) -> (x:
    Expression)
    requires
        checked_statement(ctx, o, s) is Err,
    ensures
        occurs_in_statement(s, &x),
        faulty(ctx, x, checked_statement(ctx, o, s)->Err_0),
    decreases s,
{
    match *s {
        Statement::Assign(a) => lemma_fault_in_expression(ctx, o, &a.expr),
        Statement::Expression(e) => lemma_fault_in_expression(ctx, o, &e),
        Statement::Return(r) => lemma_fault_in_optional(ctx, o, r.expr),
        Statement::VarDecl(vd) => lemma_fault_in_optional(ctx, o, vd.expr),
        Statement::IfThenElse(ite) => {
            if checked_expression(ctx, o, &ite.condition) is Err {
                lemma_fault_in_expression(ctx, o, &ite.condition)
            } else {
                let o1 = checked_expression(ctx, o, &ite.condition).unwrap();
                if checked_statements(ctx, o1, ite.then_block@, 0) is Err {
                    lemma_fault_in_statements(ctx, o1, ite.then_block@, 0)
                } else {
                    let o2 = checked_statements(ctx, o1, ite.then_block@, 0).unwrap();
                    lemma_fault_in_statements(ctx, o2, ite.else_block@, 0)
                }
            }
        },
    }
}

proof fn lemma_fault_in_statements(
    ctx: AstView,
    o: Map<u32, TypeTerm>,
    ss: Seq<Statement>,
    from: int,
) -> (x: Expression)
    requires
        0 <= from,
        checked_statements(ctx, o, ss, from) is Err,
    ensures
        occurs_in_statements(ss, from, &x),
        faulty(ctx, x, checked_statements(ctx, o, ss, from)->Err_0),
    decreases ss, ss.len() - from,
{
    if checked_statement(ctx, o, &ss[from]) is Err {
        lemma_fault_in_statement(ctx, o, &ss[from])
    } else {
        lemma_fault_in_statements(
            ctx,
            checked_statement(ctx, o, &ss[from]).unwrap(),
            ss,
            from + 1,
        )
    }
}

proof fn lemma_fault_in_class_item(ctx: AstView, o: Map<u32, TypeTerm>, ci: &ClassItem) -> (x:
    Expression)
    requires
        checked_class_item(ctx, o, ci) is Err,
    ensures
        occurs_in_class_item(ci, &x),
        faulty(ctx, x, checked_class_item(ctx, o, ci)->Err_0),
{
    match *ci {
        ClassItem::FieldDecl(fd) => lemma_fault_in_optional(ctx, o, fd.assignment),
        ClassItem::MethodDecl(md) => {
            if checked_var_decls(ctx, o, md.params@, 0) is Err {
                lemma_fault_in_var_decls(ctx, o, md.params@, 0)
            } else {
                lemma_fault_in_statements(
                    ctx,
                    checked_var_decls(ctx, o, md.params@, 0).unwrap(),
                    md.body@,
                    0,
                )
            }
        },
    }
}

proof fn lemma_fault_in_class_items(
    ctx: AstView,
    o: Map<u32, TypeTerm>,
    items: Seq<ClassItem>,
    from: int,
) -> (x: Expression)
    requires
        0 <= from,
        checked_class_items(ctx, o, items, from) is Err,
    ensures
        occurs_in_class_items(items, from, &x),
        faulty(ctx, x, checked_class_items(ctx, o, items, from)->Err_0),
    decreases items.len() - from,
{
    if checked_class_item(ctx, o, &items[from]) is Err {
        lemma_fault_in_class_item(ctx, o, &items[from])
    } else {
        lemma_fault_in_class_items(
            ctx,
            checked_class_item(ctx, o, &items[from]).unwrap(),
            items,
            from + 1,
        )
    }
}

proof fn lemma_fault_in_top_items(
    ctx: AstView,
    o: Map<u32, TypeTerm>,
    items: Seq<TopItem>,
    from: int,
) -> (x: Expression)
    requires
        0 <= from,
        checked_top_items(ctx, o, items, from) is Err,
    ensures
        occurs_in_top_items(items, from, &x),
        faulty(ctx, x, checked_top_items(ctx, o, items, from)->Err_0),
    decreases items.len() - from,
{
    match items[from] {
        TopItem::ClassDecl(cd) => {
            if checked_class_items(ctx, o, cd.items@, 0) is Err {
                lemma_fault_in_class_items(ctx, o, cd.items@, 0)
            } else {
                lemma_fault_in_top_items(
                    ctx,
                    checked_class_items(ctx, o, cd.items@, 0).unwrap(),
                    items,
                    from + 1,
                )
            }
        },
    }
}

proof fn lemma_occurrence_covered(nodes: Map<u32, Node>, e: &Expression, x: &Expression)
    requires
        covers_expression(nodes, e),
        occurs_in_expression(e, x),
    ensures
        covers_expression(nodes, x),
    decreases e,
{
    if *x != *e {
        match *e {
            Expression::BinaryOp(b) => {
                if occurs_in_expression(&*b.left, x) {
                    lemma_occurrence_covered(nodes, &*b.left, x);
                } else {
                    lemma_occurrence_covered(nodes, &*b.right, x);
                }
            },
            Expression::FieldAccess(fa) => {
                lemma_occurrence_covered(nodes, &*fa.target, x);
            },
            Expression::Literal(l) => match l.kind {
                LiteralKind::Array(_, elements) => {
                    lemma_occurrence_covered_all(nodes, elements@, 0, x);
                },
                _ => {},
            },
            Expression::MethodCall(mc) => {
                if occurs_in_expression(&*mc.target, x) {
                    lemma_occurrence_covered(nodes, &*mc.target, x);
                } else {
                    lemma_occurrence_covered_all(nodes, mc.args@, 0, x);
                }
            },
            _ => {},
        }
    }
}

proof fn lemma_occurrence_covered_all(
    nodes: Map<u32, Node>,
    es: Seq<Expression>,
    from: int,
    x: &Expression,
)
    requires
        covers_expressions(nodes, es, from),
        occurs_in_expressions(es, from, x),
    ensures
        covers_expression(nodes, x),
    decreases es, es.len() - from,
{
    if occurs_in_expression(&es[from], x) {
        lemma_occurrence_covered(nodes, &es[from], x);
    } else {
        lemma_occurrence_covered_all(nodes, es, from + 1, x);
    }
}

proof fn lemma_occurrence_covered_optional(
    nodes: Map<u32, Node>,
    e: Option<Expression>,
    x: &Expression,
)
    requires
        covers_optional(nodes, e),
        occurs_in_optional(e, x),
    ensures
        covers_expression(nodes, x),
{
    lemma_occurrence_covered(nodes, &e.unwrap(), x);
}

proof fn lemma_occurrence_covered_var_decls(
    nodes: Map<u32, Node>,
    vds: Seq<VarDecl>,
    from: int,
    x: &Expression,
)
    requires
        covers_var_decls(nodes, vds, from),
        occurs_in_var_decls(vds, from, x),
    ensures
        covers_expression(nodes, x),
    decreases vds.len() - from,
{
    if occurs_in_optional(vds[from].expr, x) {
        lemma_occurrence_covered_optional(nodes, vds[from].expr, x);
    } else {
        lemma_occurrence_covered_var_decls(nodes, vds, from + 1, x);
    }
}

proof fn lemma_occurrence_covered_statement(
    nodes: Map<u32, Node>,
    s: &Statement,
    x: &Expression,
)
    requires
        covers_statement(nodes, s),
        occurs_in_statement(s, x),
    ensures
        covers_expression(nodes, x),
    decreases s,
{
    match *s {
        Statement::Assign(a) => {
            lemma_occurrence_covered(nodes, &a.expr, x);
        },
        Statement::Expression(e) => {
            lemma_occurrence_covered(nodes, &e, x);
        },
        Statement::Return(r) => {
            lemma_occurrence_covered_optional(nodes, r.expr, x);
        },
        Statement::VarDecl(vd) => {
            lemma_occurrence_covered_optional(nodes, vd.expr, x);
        },
        Statement::IfThenElse(ite) => {
            if occurs_in_expression(&ite.condition, x) {
                lemma_occurrence_covered(nodes, &ite.condition, x);
            } else if occurs_in_statements(ite.then_block@, 0, x) {
                lemma_occurrence_covered_statements(nodes, ite.then_block@, 0, x);
            } else {
                lemma_occurrence_covered_statements(nodes, ite.else_block@, 0, x);
            }
        },
    }
}

proof fn lemma_occurrence_covered_statements(
    nodes: Map<u32, Node>,
    ss: Seq<Statement>,
    from: int,
    x: &Expression,
)
    requires
        covers_statements(nodes, ss, from),
        occurs_in_statements(ss, from, x),
    ensures
        covers_expression(nodes, x),
    decreases ss, ss.len() - from,
{
    if occurs_in_statement(&ss[from], x) {
        lemma_occurrence_covered_statement(nodes, &ss[from], x);
    } else {
        lemma_occurrence_covered_statements(nodes, ss, from + 1, x);
    }
}

proof fn lemma_occurrence_covered_class_items(
    nodes: Map<u32, Node>,
    items: Seq<ClassItem>,
    from: int,
    x: &Expression,
)
    requires
        covers_class_items(nodes, items, from),
        occurs_in_class_items(items, from, x),
    ensures
        covers_expression(nodes, x),
    decreases items.len() - from,
{
    if occurs_in_class_item(&items[from], x) {
        match items[from] {
            ClassItem::FieldDecl(fd) => {
                lemma_occurrence_covered_optional(nodes, fd.assignment, x);
            },
            ClassItem::MethodDecl(md) => {
                if occurs_in_var_decls(md.params@, 0, x) {
                    lemma_occurrence_covered_var_decls(nodes, md.params@, 0, x);
                } else {
                    lemma_occurrence_covered_statements(nodes, md.body@, 0, x);
                }
            },
        }
    } else {
        lemma_occurrence_covered_class_items(nodes, items, from + 1, x);
    }
}

proof fn lemma_occurrence_covered_top_items(
    nodes: Map<u32, Node>,
    items: Seq<TopItem>,
    from: int,
    x: &Expression,
)
    requires
        covers_top_items(nodes, items, from),
        occurs_in_top_items(items, from, x),
    ensures
        covers_expression(nodes, x),
    decreases items.len() - from,
{
    match items[from] {
        TopItem::ClassDecl(cd) => {
            if occurs_in_class_items(cd.items@, 0, x) {
                lemma_occurrence_covered_class_items(nodes, cd.items@, 0, x);
            } else {
                lemma_occurrence_covered_top_items(nodes, items, from + 1, x);
            }
        },
    }
}

/// Where the preprocessing pass accepts the program `p` and the pass over
/// the whole program stops on a fault, some expression of `p` has that
/// fault, and the question about the type of that expression is answered
/// with it.
pub proof fn lemma_fault_is_shared(p: &Program) -> (x: Expression)
    requires
        preprocessed(p) is Ok,
        checked(p) is Err,
    ensures
        occurs_in_top_items(p.items@, 0, &x),
        type_term(preprocessed(p).unwrap(), &x) == Err::<Option<TypeTerm>, CompileError>(
            checked(p)->Err_0,
        ),
        label_term(preprocessed(p).unwrap(), x.spec_label().0) == Err::<
            Option<TypeTerm>,
            CompileError,
        >(checked(p)->Err_0),
{
    let ctx = preprocessed(p).unwrap();
    let x = lemma_fault_in_top_items(ctx, Map::empty(), p.items@, 0);
    lemma_nodes_total_and_injective(p);
    lemma_occurrence_covered_top_items(ctx.nodes, p.items@, 0, &x);
    lemma_label_term(ctx, &x);
    x
}

} // verus!
