//! What holds of the tables of every program that the preprocessing pass
//! accepts: every node that the pass walks over is found under its label,
//! no label stands for two nodes, and a class is found under its own name.

use vstd::prelude::*;
use crate::ast::{
    ClassDecl, ClassItem, Expression, LiteralKind, Program, Statement, TopItem, VarDecl,
};
use crate::labels;
use crate::node::Node;
use crate::preprocess::{
    empty_tables, is_entry_point, preprocessed, with_class_decl, with_class_item,
    with_class_items, with_expression, with_expressions, with_node, with_statement,
    with_statements, with_top_items, with_var_decl, with_var_decls, PreprocessError, Tables,
};
use crate::typing::class_at;

verus! {

/// The node that the expression `e` is.
pub open spec fn node_of<'a>(e: &'a Expression) -> Node<'a> {
    match *e {
        Expression::BinaryOp(x) => Node::BinaryOp(&x),
        Expression::FieldAccess(x) => Node::FieldAccess(&x),
        Expression::Literal(x) => Node::Literal(&x),
        Expression::MethodCall(x) => Node::MethodCall(&x),
        Expression::New(x) => Node::New(&x),
        Expression::Identifier(x) => Node::Identifier(&x),
        Expression::This(x) => Node::This(&x),
    }
}

/// Whether `nodes` holds `node` under its label.
pub open spec fn holds(nodes: Map<u32, Node>, node: Node) -> bool {
    nodes.contains_key(node.spec_label().0) && nodes[node.spec_label().0] == node
}

/// Whether `nodes` holds every node of the expression `e` under its label.
pub open spec fn covers_expression(nodes: Map<u32, Node>, e: &Expression) -> bool
    decreases e,
{
    &&& holds(nodes, node_of(e))
    &&& match *e {
        Expression::BinaryOp(b) => covers_expression(nodes, &*b.left) && covers_expression(
            nodes,
            &*b.right,
        ),
        Expression::FieldAccess(fa) => covers_expression(nodes, &*fa.target),
        Expression::Literal(l) => match l.kind {
            LiteralKind::Array(_, elements) => covers_expressions(nodes, elements@, 0),
            _ => true,
        },
        Expression::MethodCall(mc) => covers_expression(nodes, &*mc.target) && covers_expressions(
            nodes,
            mc.args@,
            0,
        ),
        _ => true,
    }
}

/// Whether `nodes` holds every node of `es[from..]`.
pub open spec fn covers_expressions(nodes: Map<u32, Node>, es: Seq<Expression>, from: int) -> bool
    decreases es, es.len() - from,
{
    if 0 <= from < es.len() {
        covers_expression(nodes, &es[from]) && covers_expressions(nodes, es, from + 1)
    } else {
        true
    }
}

/// Whether `nodes` holds every node of an expression that may be absent.
pub open spec fn covers_optional(nodes: Map<u32, Node>, e: Option<Expression>) -> bool {
    match e {
        Some(e) => covers_expression(nodes, &e),
        None => true,
    }
}

/// Whether `nodes` holds the declaration `vd` and every node of its
/// initializer.
pub open spec fn covers_var_decl(nodes: Map<u32, Node>, vd: &VarDecl) -> bool {
    holds(nodes, Node::VarDecl(vd)) && covers_optional(nodes, vd.expr)
}

/// Whether `nodes` holds every node of `vds[from..]`.
pub open spec fn covers_var_decls(nodes: Map<u32, Node>, vds: Seq<VarDecl>, from: int) -> bool
    decreases vds.len() - from,
{
    if 0 <= from < vds.len() {
        covers_var_decl(nodes, &vds[from]) && covers_var_decls(nodes, vds, from + 1)
    } else {
        true
    }
}

/// Whether `nodes` holds every node of the statement `s`. Assignments,
/// returns and conditionals are no nodes themselves; their parts are.
pub open spec fn covers_statement(nodes: Map<u32, Node>, s: &Statement) -> bool
    decreases s,
{
    match *s {
        Statement::Assign(a) => covers_expression(nodes, &a.expr),
        Statement::Expression(e) => covers_expression(nodes, &e),
        Statement::Return(r) => covers_optional(nodes, r.expr),
        Statement::VarDecl(vd) => covers_var_decl(nodes, &vd),
        Statement::IfThenElse(ite) => {
            &&& covers_expression(nodes, &ite.condition)
            &&& covers_statements(nodes, ite.then_block@, 0)
            &&& covers_statements(nodes, ite.else_block@, 0)
        },
    }
}

/// Whether `nodes` holds every node of `ss[from..]`.
pub open spec fn covers_statements(nodes: Map<u32, Node>, ss: Seq<Statement>, from: int) -> bool
    decreases ss, ss.len() - from,
{
    if 0 <= from < ss.len() {
        covers_statement(nodes, &ss[from]) && covers_statements(nodes, ss, from + 1)
    } else {
        true
    }
}

/// Whether `nodes` holds every node of the class item `ci`.
pub open spec fn covers_class_item(nodes: Map<u32, Node>, ci: &ClassItem) -> bool {
    match *ci {
        ClassItem::FieldDecl(fd) => holds(nodes, Node::FieldDecl(&fd)) && covers_optional(
            nodes,
            fd.assignment,
        ),
        ClassItem::MethodDecl(md) => {
            &&& holds(nodes, Node::MethodDecl(&md))
            &&& covers_var_decls(nodes, md.params@, 0)
            &&& covers_statements(nodes, md.body@, 0)
        },
    }
}

/// Whether `nodes` holds every node of `items[from..]`.
pub open spec fn covers_class_items(nodes: Map<u32, Node>, items: Seq<ClassItem>, from: int) -> bool
    decreases items.len() - from,
{
    if 0 <= from < items.len() {
        covers_class_item(nodes, &items[from]) && covers_class_items(nodes, items, from + 1)
    } else {
        true
    }
}

/// Whether `nodes` holds every node of the classes `items[from..]`.
pub open spec fn covers_top_items(nodes: Map<u32, Node>, items: Seq<TopItem>, from: int) -> bool
    decreases items.len() - from,
{
    if 0 <= from < items.len() {
        match items[from] {
            TopItem::ClassDecl(cd) => {
                &&& holds(nodes, Node::ClassDecl(&cd))
                &&& covers_class_items(nodes, cd.items@, 0)
                &&& covers_top_items(nodes, items, from + 1)
            },
        }
    } else {
        true
    }
}

/// Whether every node in `nodes` stands under its own label. Two labels
/// then never stand for one node.
pub open spec fn labelled(nodes: Map<u32, Node>) -> bool {
    forall|k: u32| #[trigger] nodes.contains_key(k) ==> nodes[k].spec_label().0 == k
}

/// Whether `later` holds everything that `earlier` holds.
pub open spec fn grown(earlier: Map<u32, Node>, later: Map<u32, Node>) -> bool {
    forall|k: u32| #[trigger]
        earlier.contains_key(k) ==> later.contains_key(k) && later[k] == earlier[k]
}

/// Whether every class stands under its own name and is found under its
/// label.
pub open spec fn classes_known(t: Tables) -> bool {
    forall|n: Seq<char>| #[trigger]
        t.classes_by_name.contains_key(n) ==> t.classes_by_name[n].name@ == n && holds(
            t.nodes,
            Node::ClassDecl(t.classes_by_name[n]),
        )
}

/// What the walk keeps true of its tables.
pub open spec fn sound(t: Tables) -> bool {
    labelled(t.nodes) && classes_known(t)
}

/// Whether `t2` is what a step of the walk can make of `t`.
pub open spec fn follows(t: Tables, t2: Tables) -> bool {
    &&& sound(t2)
    &&& grown(t.nodes, t2.nodes)
    &&& t2.classes_by_name == t.classes_by_name
}

proof fn lemma_covers_expression_grown(a: Map<u32, Node>, b: Map<u32, Node>, e: &Expression)
    requires
        covers_expression(a, e),
        grown(a, b),
    ensures
        covers_expression(b, e),
    decreases e,
{
    assert(a.contains_key(node_of(e).spec_label().0));
    match *e {
        Expression::BinaryOp(x) => {
            lemma_covers_expression_grown(a, b, &*x.left);
            lemma_covers_expression_grown(a, b, &*x.right);
        },
        Expression::FieldAccess(fa) => {
            lemma_covers_expression_grown(a, b, &*fa.target);
        },
        Expression::Literal(l) => match l.kind {
            LiteralKind::Array(_, elements) => {
                lemma_covers_expressions_grown(a, b, elements@, 0);
            },
            _ => {},
        },
        Expression::MethodCall(mc) => {
            lemma_covers_expression_grown(a, b, &*mc.target);
            lemma_covers_expressions_grown(a, b, mc.args@, 0);
        },
        _ => {},
    }
}

proof fn lemma_covers_expressions_grown(
    a: Map<u32, Node>,
    b: Map<u32, Node>,
    es: Seq<Expression>,
    from: int,
)
    requires
        covers_expressions(a, es, from),
        grown(a, b),
    ensures
        covers_expressions(b, es, from),
    decreases es, es.len() - from,
{
    if 0 <= from < es.len() {
        lemma_covers_expression_grown(a, b, &es[from]);
        lemma_covers_expressions_grown(a, b, es, from + 1);
    }
}

proof fn lemma_covers_optional_grown(a: Map<u32, Node>, b: Map<u32, Node>, e: Option<Expression>)
    requires
        covers_optional(a, e),
        grown(a, b),
    ensures
        covers_optional(b, e),
{
    match e {
        Some(e) => {
            lemma_covers_expression_grown(a, b, &e);
        },
        None => {},
    }
}

proof fn lemma_covers_var_decl_grown(a: Map<u32, Node>, b: Map<u32, Node>, vd: &VarDecl)
    requires
        covers_var_decl(a, vd),
        grown(a, b),
    ensures
        covers_var_decl(b, vd),
{
    assert(a.contains_key(vd.label.0));
    lemma_covers_optional_grown(a, b, vd.expr);
}

proof fn lemma_covers_var_decls_grown(
    a: Map<u32, Node>,
    b: Map<u32, Node>,
    vds: Seq<VarDecl>,
    from: int,
)
    requires
        covers_var_decls(a, vds, from),
        grown(a, b),
    ensures
        covers_var_decls(b, vds, from),
    decreases vds.len() - from,
{
    if 0 <= from < vds.len() {
        lemma_covers_var_decl_grown(a, b, &vds[from]);
        lemma_covers_var_decls_grown(a, b, vds, from + 1);
    }
}

proof fn lemma_covers_statement_grown(a: Map<u32, Node>, b: Map<u32, Node>, s: &Statement)
    requires
        covers_statement(a, s),
        grown(a, b),
    ensures
        covers_statement(b, s),
    decreases s,
{
    match *s {
        Statement::Assign(x) => {
            lemma_covers_expression_grown(a, b, &x.expr);
        },
        Statement::Expression(e) => {
            lemma_covers_expression_grown(a, b, &e);
        },
        Statement::Return(r) => {
            lemma_covers_optional_grown(a, b, r.expr);
        },
        Statement::VarDecl(vd) => {
            lemma_covers_var_decl_grown(a, b, &vd);
        },
        Statement::IfThenElse(ite) => {
            lemma_covers_expression_grown(a, b, &ite.condition);
            lemma_covers_statements_grown(a, b, ite.then_block@, 0);
            lemma_covers_statements_grown(a, b, ite.else_block@, 0);
        },
    }
}

proof fn lemma_covers_statements_grown(
    a: Map<u32, Node>,
    b: Map<u32, Node>,
    ss: Seq<Statement>,
    from: int,
)
    requires
        covers_statements(a, ss, from),
        grown(a, b),
    ensures
        covers_statements(b, ss, from),
    decreases ss, ss.len() - from,
{
    if 0 <= from < ss.len() {
        lemma_covers_statement_grown(a, b, &ss[from]);
        lemma_covers_statements_grown(a, b, ss, from + 1);
    }
}

proof fn lemma_covers_class_item_grown(a: Map<u32, Node>, b: Map<u32, Node>, ci: &ClassItem)
    requires
        covers_class_item(a, ci),
        grown(a, b),
    ensures
        covers_class_item(b, ci),
{
    match *ci {
        ClassItem::FieldDecl(fd) => {
            assert(a.contains_key(fd.label.0));
            lemma_covers_optional_grown(a, b, fd.assignment);
        },
        ClassItem::MethodDecl(md) => {
            assert(a.contains_key(md.label.0));
            lemma_covers_var_decls_grown(a, b, md.params@, 0);
            lemma_covers_statements_grown(a, b, md.body@, 0);
        },
    }
}

proof fn lemma_covers_class_items_grown(
    a: Map<u32, Node>,
    b: Map<u32, Node>,
    items: Seq<ClassItem>,
    from: int,
)
    requires
        covers_class_items(a, items, from),
        grown(a, b),
    ensures
        covers_class_items(b, items, from),
    decreases items.len() - from,
{
    if 0 <= from < items.len() {
        lemma_covers_class_item_grown(a, b, &items[from]);
        lemma_covers_class_items_grown(a, b, items, from + 1);
    }
}

proof fn lemma_with_node<'a>(t: Tables<'a>, node: Node<'a>)
    requires
        with_node(t, node) is Ok,
        labelled(t.nodes),
    ensures
        labelled(with_node(t, node).unwrap().nodes),
        grown(t.nodes, with_node(t, node).unwrap().nodes),
        holds(with_node(t, node).unwrap().nodes, node),
{
}

proof fn lemma_grown_chain(a: Map<u32, Node>, b: Map<u32, Node>, c: Map<u32, Node>)
    requires
        grown(a, b),
        grown(b, c),
    ensures
        grown(a, c),
{
    assert forall|k: u32| #[trigger] a.contains_key(k) implies c.contains_key(k) && c[k] == a[k] by {
        assert(b.contains_key(k));
    }
}

/// A table that holds everything that a sound table holds, under the same
/// class names, knows the classes as well.
proof fn lemma_classes_kept(t: Tables, t2: Tables)
    requires
        classes_known(t),
        grown(t.nodes, t2.nodes),
        t2.classes_by_name == t.classes_by_name,
    ensures
        classes_known(t2),
{
    assert forall|n: Seq<char>| #[trigger] t2.classes_by_name.contains_key(n) implies t2.classes_by_name[n].name@
        == n && holds(t2.nodes, Node::ClassDecl(t2.classes_by_name[n])) by {
        assert(t.classes_by_name.contains_key(n));
        assert(t.nodes.contains_key(t.classes_by_name[n].label.0));
    }
}

proof fn lemma_with_expression<'a>(t: Tables<'a>, e: &'a Expression)
    requires
        sound(t),
        with_expression(t, e) is Ok,
    ensures
        follows(t, with_expression(t, e).unwrap()),
        covers_expression(with_expression(t, e).unwrap().nodes, e),
    decreases e,
{
    let fin = with_expression(t, e).unwrap();
    match *e {
        Expression::BinaryOp(b) => {
            let t1 = with_node(t, Node::BinaryOp(&b)).unwrap();
            lemma_with_node(t, Node::BinaryOp(&b));
            lemma_classes_kept(t, t1);
            let t2 = with_expression(t1, &*b.left).unwrap();
            lemma_with_expression(t1, &*b.left);
            lemma_with_expression(t2, &*b.right);
            lemma_grown_chain(t1.nodes, t2.nodes, fin.nodes);
            lemma_grown_chain(t.nodes, t1.nodes, fin.nodes);
            lemma_covers_expression_grown(t2.nodes, fin.nodes, &*b.left);
            assert(t1.nodes.contains_key(b.label.0));
        },
        Expression::FieldAccess(fa) => {
            let t1 = with_node(t, Node::FieldAccess(&fa)).unwrap();
            lemma_with_node(t, Node::FieldAccess(&fa));
            lemma_classes_kept(t, t1);
            lemma_with_expression(t1, &*fa.target);
            lemma_grown_chain(t.nodes, t1.nodes, fin.nodes);
            assert(t1.nodes.contains_key(fa.label.0));
        },
        Expression::Literal(l) => {
            let t1 = with_node(t, Node::Literal(&l)).unwrap();
            lemma_with_node(t, Node::Literal(&l));
            lemma_classes_kept(t, t1);
            match l.kind {
                LiteralKind::Array(_, elements) => {
                    lemma_with_expressions(t1, elements@, 0);
                    lemma_grown_chain(t.nodes, t1.nodes, fin.nodes);
                    assert(t1.nodes.contains_key(l.label.0));
                },
                _ => {},
            }
        },
        Expression::MethodCall(mc) => {
            let t1 = with_node(t, Node::MethodCall(&mc)).unwrap();
            lemma_with_node(t, Node::MethodCall(&mc));
            lemma_classes_kept(t, t1);
            let t2 = with_expression(t1, &*mc.target).unwrap();
            lemma_with_expression(t1, &*mc.target);
            lemma_with_expressions(t2, mc.args@, 0);
            lemma_grown_chain(t1.nodes, t2.nodes, fin.nodes);
            lemma_grown_chain(t.nodes, t1.nodes, fin.nodes);
            lemma_covers_expression_grown(t2.nodes, fin.nodes, &*mc.target);
            assert(t1.nodes.contains_key(mc.label.0));
        },
        Expression::New(n) => {
            lemma_with_node(t, Node::New(&n));
            lemma_classes_kept(t, fin);
        },
        Expression::Identifier(i) => {
            let t1 = if t.current_vars.contains_key(i.name@) {
                Tables { var_map: t.var_map.insert(i.label.0, t.current_vars[i.name@]), ..t }
            } else {
                t
            };
            lemma_with_node(t1, Node::Identifier(&i));
            lemma_classes_kept(t, fin);
        },
        Expression::This(th) => {
            let t1 = Tables {
                this_map: t.this_map.insert(th.label.0, t.current_class.unwrap()),
                ..t
            };
            lemma_with_node(t1, Node::This(&th));
            lemma_classes_kept(t, fin);
        },
    }
}

proof fn lemma_with_expressions<'a>(t: Tables<'a>, es: Seq<Expression>, from: int)
    requires
        sound(t),
        0 <= from,
        with_expressions(t, es, from) is Ok,
    ensures
        follows(t, with_expressions(t, es, from).unwrap()),
        covers_expressions(with_expressions(t, es, from).unwrap().nodes, es, from),
    decreases es, es.len() - from,
{
    if from < es.len() {
        let fin = with_expressions(t, es, from).unwrap();
        let t1 = with_expression(t, &es[from]).unwrap();
        lemma_with_expression(t, &es[from]);
        lemma_with_expressions(t1, es, from + 1);
        lemma_grown_chain(t.nodes, t1.nodes, fin.nodes);
        lemma_covers_expression_grown(t1.nodes, fin.nodes, &es[from]);
    } else {
        lemma_classes_kept(t, t);
    }
}

proof fn lemma_with_var_decl<'a>(t: Tables<'a>, vd: &'a VarDecl)
    requires
        sound(t),
        with_var_decl(t, vd) is Ok,
    ensures
        follows(t, with_var_decl(t, vd).unwrap()),
        covers_var_decl(with_var_decl(t, vd).unwrap().nodes, vd),
{
    let fin = with_var_decl(t, vd).unwrap();
    let t0 = Tables { current_vars: t.current_vars.insert(vd.var_name@, vd), ..t };
    let t1 = with_node(t0, Node::VarDecl(vd)).unwrap();
    lemma_with_node(t0, Node::VarDecl(vd));
    lemma_classes_kept(t, t1);
    match vd.expr {
        Some(e) => {
            lemma_with_expression(t1, &e);
            lemma_grown_chain(t.nodes, t1.nodes, fin.nodes);
            assert(t1.nodes.contains_key(vd.label.0));
        },
        None => {},
    }
}

proof fn lemma_with_var_decls<'a>(t: Tables<'a>, vds: Seq<VarDecl>, from: int)
    requires
        sound(t),
        0 <= from,
        with_var_decls(t, vds, from) is Ok,
    ensures
        follows(t, with_var_decls(t, vds, from).unwrap()),
        covers_var_decls(with_var_decls(t, vds, from).unwrap().nodes, vds, from),
    decreases vds.len() - from,
{
    if from < vds.len() {
        let fin = with_var_decls(t, vds, from).unwrap();
        let t1 = with_var_decl(t, &vds[from]).unwrap();
        lemma_with_var_decl(t, &vds[from]);
        lemma_with_var_decls(t1, vds, from + 1);
        lemma_grown_chain(t.nodes, t1.nodes, fin.nodes);
        lemma_covers_var_decl_grown(t1.nodes, fin.nodes, &vds[from]);
    } else {
        lemma_classes_kept(t, t);
    }
}

proof fn lemma_with_statement<'a>(t: Tables<'a>, s: &'a Statement)
    requires
        sound(t),
        with_statement(t, s) is Ok,
    ensures
        follows(t, with_statement(t, s).unwrap()),
        covers_statement(with_statement(t, s).unwrap().nodes, s),
    decreases s,
{
    let fin = with_statement(t, s).unwrap();
    match *s {
        Statement::Assign(a) => {
            let t1 = Tables {
                var_map: t.var_map.insert(a.label.0, t.current_vars[a.var_name@]),
                ..t
            };
            lemma_classes_kept(t, t1);
            lemma_with_expression(t1, &a.expr);
        },
        Statement::Expression(e) => {
            lemma_with_expression(t, &e);
        },
        Statement::Return(r) => match r.expr {
            Some(e) => {
                lemma_with_expression(t, &e);
            },
            None => {
                lemma_classes_kept(t, t);
            },
        },
        Statement::VarDecl(vd) => {
            lemma_with_var_decl(t, &vd);
        },
        Statement::IfThenElse(ite) => {
            let t1 = with_expression(t, &ite.condition).unwrap();
            lemma_with_expression(t, &ite.condition);
            let t2 = with_statements(t1, ite.then_block@, 0).unwrap();
            lemma_with_statements(t1, ite.then_block@, 0);
            lemma_with_statements(t2, ite.else_block@, 0);
            lemma_grown_chain(t1.nodes, t2.nodes, fin.nodes);
            lemma_grown_chain(t.nodes, t1.nodes, fin.nodes);
            lemma_covers_expression_grown(t1.nodes, fin.nodes, &ite.condition);
            lemma_covers_statements_grown(t2.nodes, fin.nodes, ite.then_block@, 0);
        },
    }
}

proof fn lemma_with_statements<'a>(t: Tables<'a>, ss: Seq<Statement>, from: int)
    requires
        sound(t),
        0 <= from,
        with_statements(t, ss, from) is Ok,
    ensures
        follows(t, with_statements(t, ss, from).unwrap()),
        covers_statements(with_statements(t, ss, from).unwrap().nodes, ss, from),
    decreases ss, ss.len() - from,
{
    if from < ss.len() {
        let fin = with_statements(t, ss, from).unwrap();
        let t1 = with_statement(t, &ss[from]).unwrap();
        lemma_with_statement(t, &ss[from]);
        lemma_with_statements(t1, ss, from + 1);
        lemma_grown_chain(t.nodes, t1.nodes, fin.nodes);
        lemma_covers_statement_grown(t1.nodes, fin.nodes, &ss[from]);
    } else {
        lemma_classes_kept(t, t);
    }
}

proof fn lemma_with_class_item<'a>(t: Tables<'a>, ci: &'a ClassItem)
    requires
        sound(t),
        with_class_item(t, ci) is Ok,
    ensures
        follows(t, with_class_item(t, ci).unwrap()),
        covers_class_item(with_class_item(t, ci).unwrap().nodes, ci),
{
    let fin = with_class_item(t, ci).unwrap();
    match *ci {
        ClassItem::FieldDecl(fd) => {
            let t1 = with_node(t, Node::FieldDecl(&fd)).unwrap();
            lemma_with_node(t, Node::FieldDecl(&fd));
            lemma_classes_kept(t, t1);
            match fd.assignment {
                Some(e) => {
                    let t2 = Tables { current_class: None, ..t1 };
                    lemma_classes_kept(t1, t2);
                    let t3 = with_expression(t2, &e).unwrap();
                    lemma_with_expression(t2, &e);
                    lemma_classes_kept(t3, fin);
                    lemma_grown_chain(t.nodes, t1.nodes, fin.nodes);
                    assert(t1.nodes.contains_key(fd.label.0));
                },
                None => {},
            }
        },
        ClassItem::MethodDecl(md) => {
            let t1 = Tables { current_vars: Map::empty(), ..t };
            let t2 = if is_entry_point(&md) {
                Tables {
                    entry_point: Some(&md),
                    errors: if t1.entry_point is Some {
                        t1.errors.push(
                            PreprocessError::MultiEntryPoint(labels::MethodDecl(md.label)),
                        )
                    } else {
                        t1.errors
                    },
                    ..t1
                }
            } else {
                t1
            };
            lemma_classes_kept(t, t2);
            let t3 = with_node(t2, Node::MethodDecl(&md)).unwrap();
            lemma_with_node(t2, Node::MethodDecl(&md));
            lemma_classes_kept(t2, t3);
            let t4 = with_var_decls(t3, md.params@, 0).unwrap();
            lemma_with_var_decls(t3, md.params@, 0);
            lemma_with_statements(t4, md.body@, 0);
            lemma_grown_chain(t3.nodes, t4.nodes, fin.nodes);
            lemma_grown_chain(t.nodes, t3.nodes, fin.nodes);
            lemma_covers_var_decls_grown(t4.nodes, fin.nodes, md.params@, 0);
            assert(t3.nodes.contains_key(md.label.0));
        },
    }
}

proof fn lemma_with_class_items<'a>(t: Tables<'a>, items: Seq<ClassItem>, from: int)
    requires
        sound(t),
        0 <= from,
        with_class_items(t, items, from) is Ok,
    ensures
        follows(t, with_class_items(t, items, from).unwrap()),
        covers_class_items(with_class_items(t, items, from).unwrap().nodes, items, from),
    decreases items.len() - from,
{
    if from < items.len() {
        let fin = with_class_items(t, items, from).unwrap();
        let t1 = with_class_item(t, &items[from]).unwrap();
        lemma_with_class_item(t, &items[from]);
        lemma_with_class_items(t1, items, from + 1);
        lemma_grown_chain(t.nodes, t1.nodes, fin.nodes);
        lemma_covers_class_item_grown(t1.nodes, fin.nodes, &items[from]);
    } else {
        lemma_classes_kept(t, t);
    }
}

proof fn lemma_with_class_decl<'a>(t: Tables<'a>, cd: &'a ClassDecl)
    requires
        sound(t),
        with_class_decl(t, cd) is Ok,
    ensures
        sound(with_class_decl(t, cd).unwrap()),
        grown(t.nodes, with_class_decl(t, cd).unwrap().nodes),
        holds(with_class_decl(t, cd).unwrap().nodes, Node::ClassDecl(cd)),
        covers_class_items(with_class_decl(t, cd).unwrap().nodes, cd.items@, 0),
{
    let fin = with_class_decl(t, cd).unwrap();
    let t1 = Tables {
        current_class: Some(cd),
        classes_by_name: t.classes_by_name.insert(cd.name@, cd),
        errors: if t.classes_by_name.contains_key(cd.name@) {
            t.errors.push(PreprocessError::MultiClassDecl(labels::ClassDecl(cd.label)))
        } else {
            t.errors
        },
        ..t
    };
    let t2 = with_node(t1, Node::ClassDecl(cd)).unwrap();
    lemma_with_node(t1, Node::ClassDecl(cd));
    assert forall|n: Seq<char>| #[trigger] t2.classes_by_name.contains_key(n) implies t2.classes_by_name[n].name@
        == n && holds(t2.nodes, Node::ClassDecl(t2.classes_by_name[n])) by {
        if n != cd.name@ {
            assert(t.classes_by_name.contains_key(n));
            assert(t.nodes.contains_key(t.classes_by_name[n].label.0));
        }
    }
    lemma_with_class_items(t2, cd.items@, 0);
    lemma_grown_chain(t.nodes, t2.nodes, fin.nodes);
    assert(t2.nodes.contains_key(cd.label.0));
}

proof fn lemma_with_top_items<'a>(t: Tables<'a>, items: Seq<TopItem>, from: int)
    requires
        sound(t),
        0 <= from,
        with_top_items(t, items, from) is Ok,
    ensures
        sound(with_top_items(t, items, from).unwrap()),
        grown(t.nodes, with_top_items(t, items, from).unwrap().nodes),
        covers_top_items(with_top_items(t, items, from).unwrap().nodes, items, from),
    decreases items.len() - from,
{
    if from < items.len() {
        let fin = with_top_items(t, items, from).unwrap();
        match items[from] {
            TopItem::ClassDecl(cd) => {
                let t1 = with_class_decl(t, &cd).unwrap();
                lemma_with_class_decl(t, &cd);
                lemma_with_top_items(t1, items, from + 1);
                lemma_grown_chain(t.nodes, t1.nodes, fin.nodes);
                lemma_covers_class_items_grown(t1.nodes, fin.nodes, cd.items@, 0);
                assert(t1.nodes.contains_key(cd.label.0));
            },
        }
    }
}

/// The tables of a program that the pass accepts hold every node that the
/// pass walks over under the label of that node, and every node in them
/// stands under its own label: the tables are total, and no two labels
/// stand for one node.
pub proof fn lemma_nodes_total_and_injective(p: &Program)
    requires
        preprocessed(p) is Ok,
    ensures
        covers_top_items(preprocessed(p).unwrap().nodes, p.items@, 0),
        labelled(preprocessed(p).unwrap().nodes),
{
    lemma_with_top_items(empty_tables(), p.items@, 0);
}

/// In the tables of a program that the pass accepts, the class found under
/// a name bears that name, and is the class declared at its label.
pub proof fn lemma_class_bears_its_name(p: &Program, name: Seq<char>)
    requires
        preprocessed(p) is Ok,
        preprocessed(p).unwrap().classes_by_name.contains_key(name),
    ensures
        preprocessed(p).unwrap().classes_by_name[name].name@ == name,
        class_at(
            preprocessed(p).unwrap(),
            preprocessed(p).unwrap().classes_by_name[name].label.0,
        ) == Some(preprocessed(p).unwrap().classes_by_name[name]),
{
    lemma_with_top_items(empty_tables(), p.items@, 0);
    let t = with_top_items(empty_tables(), p.items@, 0).unwrap();
    assert(t.classes_by_name.contains_key(name));
}

} // verus!
