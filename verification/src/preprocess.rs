//! The pass that indexes a program before any question about it is asked.
//!
//! One walk over the tree records every labelled node under its label,
//! every class under its name, the declaration that each use of a variable
//! refers to, the class that each `this` stands in, and the entry point.

use std::collections::HashMap;
use vstd::prelude::*;
use vstd::hash_map::StringHashMap;
use vstd::string::StringExecFns;
use crate::ast::{
    Assign, ClassDecl, ClassItem, Expression, FieldDecl, IfThenElse, LiteralKind, MethodDecl,
    Program, Return, Statement, TopItem, VarDecl,
};
use crate::error::CompileError;
use crate::labels;
use crate::node::Node;

verus! {

broadcast use vstd::std_specs::hash::group_hash_axioms;

/// A fault that does not stop the walk. The walk collects these; a program
/// with any of them is rejected once the walk is over.
#[derive(Clone, Copy, Debug, PartialEq, Eq, Structural)]
pub enum PreprocessError {
    /// The class with this label bears a name that an earlier class bears.
    MultiClassDecl(labels::ClassDecl),
    /// The method with this label is a second entry point.
    MultiEntryPoint(labels::MethodDecl),
}

impl PreprocessError {
    /// The reason for which a program with this fault is rejected.
    pub open spec fn spec_kind(self) -> CompileError {
        match self {
            PreprocessError::MultiClassDecl(_) => CompileError::MultiClassDecl,
            PreprocessError::MultiEntryPoint(_) => CompileError::MultiEntryPoint,
        }
    }

    pub fn kind(&self) -> (r: CompileError)
        ensures
            r == self.spec_kind(),
    {
        match self {
            PreprocessError::MultiClassDecl(_) => CompileError::MultiClassDecl,
            PreprocessError::MultiEntryPoint(_) => CompileError::MultiEntryPoint,
        }
    }
}

/// What the walk has recorded at some point, as plain maps.
pub struct Tables<'a> {
    /// Every labelled node met so far, by label.
    pub nodes: Map<u32, Node<'a>>,
    /// For the label of a use of a variable, the declaration it refers to.
    pub var_map: Map<u32, &'a VarDecl>,
    /// For the label of a `this`, the class it stands in.
    pub this_map: Map<u32, &'a ClassDecl>,
    /// The classes met so far, by name.
    pub classes_by_name: Map<Seq<char>, &'a ClassDecl>,
    /// The last entry point met so far.
    pub entry_point: Option<&'a MethodDecl>,
    /// The faults collected so far.
    pub errors: Seq<PreprocessError>,
    /// The class whose methods are being walked, if any.
    pub current_class: Option<&'a ClassDecl>,
    /// The variables in scope, by name.
    pub current_vars: Map<Seq<char>, &'a VarDecl>,
}

/// The tables before the walk.
pub open spec fn empty_tables<'a>() -> Tables<'a> {
    Tables {
        nodes: Map::empty(),
        var_map: Map::empty(),
        this_map: Map::empty(),
        classes_by_name: Map::empty(),
        entry_point: None,
        errors: Seq::empty(),
        current_class: None,
        current_vars: Map::empty(),
    }
}

/// The tables after `node` is recorded. No label may be recorded twice.
pub open spec fn with_node<'a>(t: Tables<'a>, node: Node<'a>) -> Result<Tables<'a>, CompileError> {
    if t.nodes.contains_key(node.spec_label().0) {
        Err(CompileError::DuplicateLabel)
    } else {
        Ok(Tables { nodes: t.nodes.insert(node.spec_label().0, node), ..t })
    }
}

/// The tables after the walk over the expression `e`.
///
/// A node is recorded before its children. An identifier is resolved
/// against the variables in scope; one that names none of them is left
/// unresolved, since it may name a class. A `this` needs a class to stand in.
pub open spec fn with_expression<'a>(t: Tables<'a>, e: &'a Expression) -> Result<
    Tables<'a>,
    CompileError,
>
    decreases e,
{
    match *e {
        Expression::BinaryOp(b) => match with_node(t, Node::BinaryOp(&b)) {
            Ok(t1) => match with_expression(t1, &*b.left) {
                Ok(t2) => with_expression(t2, &*b.right),
                Err(err) => Err(err),
            },
            Err(err) => Err(err),
        },
        Expression::FieldAccess(fa) => match with_node(t, Node::FieldAccess(&fa)) {
            Ok(t1) => with_expression(t1, &*fa.target),
            Err(err) => Err(err),
        },
        Expression::Literal(l) => match with_node(t, Node::Literal(&l)) {
            Ok(t1) => match l.kind {
                LiteralKind::Array(_, elements) => with_expressions(t1, elements@, 0),
                _ => Ok(t1),
            },
            Err(err) => Err(err),
        },
        Expression::MethodCall(mc) => match with_node(t, Node::MethodCall(&mc)) {
            Ok(t1) => match with_expression(t1, &*mc.target) {
                Ok(t2) => with_expressions(t2, mc.args@, 0),
                Err(err) => Err(err),
            },
            Err(err) => Err(err),
        },
        Expression::New(n) => with_node(t, Node::New(&n)),
        Expression::Identifier(i) => {
            let t1 = if t.current_vars.contains_key(i.name@) {
                Tables { var_map: t.var_map.insert(i.label.0, t.current_vars[i.name@]), ..t }
            } else {
                t
            };
            with_node(t1, Node::Identifier(&i))
        },
        Expression::This(th) => match t.current_class {
            Some(class) => with_node(
                Tables { this_map: t.this_map.insert(th.label.0, class), ..t },
                Node::This(&th),
            ),
            None => Err(CompileError::ThisInStaticMethod),
        },
    }
}

/// The tables after the walk over `es[from..]`, in order.
pub open spec fn with_expressions<'a>(t: Tables<'a>, es: Seq<Expression>, from: int) -> Result<
    Tables<'a>,
    CompileError,
>
    decreases es, es.len() - from,
{
    if 0 <= from < es.len() {
        match with_expression(t, &es[from]) {
            Ok(t1) => with_expressions(t1, es, from + 1),
            Err(err) => Err(err),
        }
    } else {
        Ok(t)
    }
}

/// The tables after the walk over the declaration `vd` of a variable or
/// parameter. The name comes into scope before the initializer is walked;
/// a name that is in scope already may not be declared again.
pub open spec fn with_var_decl<'a>(t: Tables<'a>, vd: &'a VarDecl) -> Result<
    Tables<'a>,
    CompileError,
> {
    if t.current_vars.contains_key(vd.var_name@) {
        Err(CompileError::DoubleVarDecl)
    } else {
        match with_node(
            Tables { current_vars: t.current_vars.insert(vd.var_name@, vd), ..t },
            Node::VarDecl(vd),
        ) {
            Ok(t1) => match vd.expr {
                Some(e) => with_expression(t1, &e),
                None => Ok(t1),
            },
            Err(err) => Err(err),
        }
    }
}

/// The tables after the walk over `vds[from..]`, in order.
pub open spec fn with_var_decls<'a>(t: Tables<'a>, vds: Seq<VarDecl>, from: int) -> Result<
    Tables<'a>,
    CompileError,
>
    decreases vds.len() - from,
{
    if 0 <= from < vds.len() {
        match with_var_decl(t, &vds[from]) {
            Ok(t1) => with_var_decls(t1, vds, from + 1),
            Err(err) => Err(err),
        }
    } else {
        Ok(t)
    }
}

/// The tables after the walk over the statement `s`. The target of an
/// assignment must be in scope. A variable declared in a branch of a
/// conditional stays in scope after it.
pub open spec fn with_statement<'a>(t: Tables<'a>, s: &'a Statement) -> Result<
    Tables<'a>,
    CompileError,
>
    decreases s,
{
    match *s {
        Statement::Assign(a) => if t.current_vars.contains_key(a.var_name@) {
            with_expression(
                Tables { var_map: t.var_map.insert(a.label.0, t.current_vars[a.var_name@]), ..t },
                &a.expr,
            )
        } else {
            Err(CompileError::UnresolvedName)
        },
        Statement::Expression(e) => with_expression(t, &e),
        Statement::Return(r) => match r.expr {
            Some(e) => with_expression(t, &e),
            None => Ok(t),
        },
        Statement::VarDecl(vd) => with_var_decl(t, &vd),
        Statement::IfThenElse(ite) => match with_expression(t, &ite.condition) {
            Ok(t1) => match with_statements(t1, ite.then_block@, 0) {
                Ok(t2) => with_statements(t2, ite.else_block@, 0),
                Err(err) => Err(err),
            },
            Err(err) => Err(err),
        },
    }
}

/// The tables after the walk over `ss[from..]`, in order.
pub open spec fn with_statements<'a>(t: Tables<'a>, ss: Seq<Statement>, from: int) -> Result<
    Tables<'a>,
    CompileError,
>
    decreases ss, ss.len() - from,
{
    if 0 <= from < ss.len() {
        match with_statement(t, &ss[from]) {
            Ok(t1) => with_statements(t1, ss, from + 1),
            Err(err) => Err(err),
        }
    } else {
        Ok(t)
    }
}

/// Whether `md` is an entry point: a static method called `Main`.
pub open spec fn is_entry_point(md: &MethodDecl) -> bool {
    md.is_static && md.name@ == "Main"@
}

/// The tables after the walk over the method `md`. The scope starts empty;
/// the parameters come into scope in order, then the body is walked. An
/// entry point after the first is a fault.
pub open spec fn with_method_decl<'a>(t: Tables<'a>, md: &'a MethodDecl) -> Result<
    Tables<'a>,
    CompileError,
> {
    let t1 = Tables { current_vars: Map::empty(), ..t };
    let t2 = if is_entry_point(md) {
        Tables {
            entry_point: Some(md),
            errors: if t1.entry_point is Some {
                t1.errors.push(PreprocessError::MultiEntryPoint(labels::MethodDecl(md.label)))
            } else {
                t1.errors
            },
            ..t1
        }
    } else {
        t1
    };
    match with_node(t2, Node::MethodDecl(md)) {
        Ok(t3) => match with_var_decls(t3, md.params@, 0) {
            Ok(t4) => with_statements(t4, md.body@, 0),
            Err(err) => Err(err),
        },
        Err(err) => Err(err),
    }
}

/// The tables after the walk over the field `fd`. While the initializer is
/// walked there is no class for a `this` to stand in.
pub open spec fn with_field_decl<'a>(t: Tables<'a>, fd: &'a FieldDecl) -> Result<
    Tables<'a>,
    CompileError,
> {
    match with_node(t, Node::FieldDecl(fd)) {
        Ok(t1) => match fd.assignment {
            Some(e) => match with_expression(Tables { current_class: None, ..t1 }, &e) {
                Ok(t2) => Ok(Tables { current_class: t1.current_class, ..t2 }),
                Err(err) => Err(err),
            },
            None => Ok(t1),
        },
        Err(err) => Err(err),
    }
}

/// The tables after the walk over the class item `ci`.
pub open spec fn with_class_item<'a>(t: Tables<'a>, ci: &'a ClassItem) -> Result<
    Tables<'a>,
    CompileError,
> {
    match *ci {
        ClassItem::FieldDecl(fd) => with_field_decl(t, &fd),
        ClassItem::MethodDecl(md) => with_method_decl(t, &md),
    }
}

/// The tables after the walk over `items[from..]`, in order.
pub open spec fn with_class_items<'a>(t: Tables<'a>, items: Seq<ClassItem>, from: int) -> Result<
    Tables<'a>,
    CompileError,
>
    decreases items.len() - from,
{
    if 0 <= from < items.len() {
        match with_class_item(t, &items[from]) {
            Ok(t1) => with_class_items(t1, items, from + 1),
            Err(err) => Err(err),
        }
    } else {
        Ok(t)
    }
}

/// The tables after the walk over the class `cd`. A class whose name an
/// earlier class bears is a fault, and takes the name over.
pub open spec fn with_class_decl<'a>(t: Tables<'a>, cd: &'a ClassDecl) -> Result<
    Tables<'a>,
    CompileError,
> {
    let t1 = Tables {
        current_class: Some(cd),
        classes_by_name: t.classes_by_name.insert(cd.name@, cd),
        errors: if t.classes_by_name.contains_key(cd.name@) {
            t.errors.push(PreprocessError::MultiClassDecl(labels::ClassDecl(cd.label)))
        } else {
            t.errors
        },
        ..t
    };
    match with_node(t1, Node::ClassDecl(cd)) {
        Ok(t2) => with_class_items(t2, cd.items@, 0),
        Err(err) => Err(err),
    }
}

/// The tables after the walk over `items[from..]`, in order.
pub open spec fn with_top_items<'a>(t: Tables<'a>, items: Seq<TopItem>, from: int) -> Result<
    Tables<'a>,
    CompileError,
>
    decreases items.len() - from,
{
    if 0 <= from < items.len() {
        match items[from] {
            TopItem::ClassDecl(cd) => match with_class_decl(t, &cd) {
                Ok(t1) => with_top_items(t1, items, from + 1),
                Err(err) => Err(err),
            },
        }
    } else {
        Ok(t)
    }
}

/// The state of the walk.
pub struct PreprocessVisitor<'a> {
    pub nodes: HashMap<u32, Node<'a>>,
    pub var_map: HashMap<u32, &'a VarDecl>,
    pub this_map: HashMap<u32, &'a ClassDecl>,
    pub classes_by_name: StringHashMap<&'a ClassDecl>,
    pub entry_point: Option<&'a MethodDecl>,
    pub errors: Vec<PreprocessError>,
    pub current_class: Option<&'a ClassDecl>,
    pub current_vars: StringHashMap<&'a VarDecl>,
}

impl<'a> View for PreprocessVisitor<'a> {
    type V = Tables<'a>;

    open spec fn view(&self) -> Tables<'a> {
        Tables {
            nodes: self.nodes@,
            var_map: self.var_map@,
            this_map: self.this_map@,
            classes_by_name: self.classes_by_name@,
            entry_point: self.entry_point,
            errors: self.errors@,
            current_class: self.current_class,
            current_vars: self.current_vars@,
        }
    }
}

/// Whether a step of the walk that was to give `expected` ended in `result`,
/// with the tables `after`.
pub open spec fn walked<'a>(
    expected: Result<Tables<'a>, CompileError>,
    result: Result<(), CompileError>,
    after: Tables<'a>,
) -> bool {
    match expected {
        Ok(t) => result is Ok && after == t,
        Err(err) => result == Err::<(), CompileError>(err),
    }
}

impl<'a> PreprocessVisitor<'a> {
    /// A visitor that has seen nothing.
    pub fn new() -> (r: PreprocessVisitor<'a>)
        ensures
            r@ == empty_tables(),
    {
        PreprocessVisitor {
            nodes: HashMap::new(),
            var_map: HashMap::new(),
            this_map: HashMap::new(),
            classes_by_name: StringHashMap::new(),
            entry_point: None,
            errors: Vec::new(),
            current_class: None,
            current_vars: StringHashMap::new(),
        }
    }

    fn insert_node(&mut self, node: Node<'a>) -> (r: Result<(), CompileError>)
        ensures
            walked(with_node(old(self)@, node), r, final(self)@),
    {
        let label = node.label();
        if self.nodes.contains_key(&label.0) {
            return Err(CompileError::DuplicateLabel);
        }
        self.nodes.insert(label.0, node);
        Ok(())
    }

    pub fn visit_expression(&mut self, expr: &'a Expression) -> (r: Result<(), CompileError>)
        ensures
            walked(with_expression(old(self)@, expr), r, final(self)@),
        decreases expr,
    {
        match expr {
            Expression::BinaryOp(b) => {
                self.insert_node(Node::BinaryOp(b))?;
                self.visit_expression(&b.left)?;
                self.visit_expression(&b.right)
            },
            Expression::FieldAccess(fa) => {
                self.insert_node(Node::FieldAccess(fa))?;
                self.visit_expression(&fa.target)
            },
            Expression::Literal(l) => {
                self.insert_node(Node::Literal(l))?;
                match &l.kind {
                    LiteralKind::Array(_, elements) => self.visit_expressions(elements),
                    _ => Ok(()),
                }
            },
            Expression::MethodCall(mc) => {
                self.insert_node(Node::MethodCall(mc))?;
                self.visit_expression(&mc.target)?;
                self.visit_expressions(&mc.args)
            },
            Expression::New(n) => self.insert_node(Node::New(n)),
            Expression::Identifier(i) => {
                match self.current_vars.get(i.name.as_str()) {
                    Some(vd) => {
                        let vd: &'a VarDecl = *vd;
                        self.var_map.insert(i.label.0, vd);
                    },
                    None => {},
                }
                self.insert_node(Node::Identifier(i))
            },
            Expression::This(th) => {
                match self.current_class {
                    Some(class) => {
                        self.this_map.insert(th.label.0, class);
                        self.insert_node(Node::This(th))
                    },
                    None => Err(CompileError::ThisInStaticMethod),
                }
            },
        }
    }

    fn visit_expressions(&mut self, exprs: &'a Vec<Expression>) -> (r: Result<(), CompileError>)
        ensures
            walked(with_expressions(old(self)@, exprs@, 0), r, final(self)@),
        decreases exprs,
    {
        let mut i: usize = 0;
        while i < exprs.len()
            invariant
                i <= exprs.len(),
                with_expressions(self@, exprs@, i as int) == with_expressions(
                    old(self)@,
                    exprs@,
                    0,
                ),
            decreases exprs.len() - i,
        {
            self.visit_expression(&exprs[i])?;
            i = i + 1;
        }
        Ok(())
    }
    pub fn visit_var_decl(&mut self, var_decl: &'a VarDecl) -> (r: Result<(), CompileError>)
        ensures
            walked(with_var_decl(old(self)@, var_decl), r, final(self)@),
    {
        if self.current_vars.contains_key(var_decl.var_name.as_str()) {
            return Err(CompileError::DoubleVarDecl);
        }
        self.current_vars.insert(var_decl.var_name.clone(), var_decl);
        self.insert_node(Node::VarDecl(var_decl))?;
        match &var_decl.expr {
            Some(e) => self.visit_expression(e),
            None => Ok(()),
        }
    }

    fn visit_var_decls(&mut self, var_decls: &'a Vec<VarDecl>) -> (r: Result<(), CompileError>)
        ensures
            walked(with_var_decls(old(self)@, var_decls@, 0), r, final(self)@),
    {
        let mut i: usize = 0;
        while i < var_decls.len()
            invariant
                i <= var_decls.len(),
                with_var_decls(self@, var_decls@, i as int) == with_var_decls(
                    old(self)@,
                    var_decls@,
                    0,
                ),
            decreases var_decls.len() - i,
        {
            self.visit_var_decl(&var_decls[i])?;
            i = i + 1;
        }
        Ok(())
    }

    pub fn visit_assign(&mut self, assign: &'a Assign) -> (r: Result<(), CompileError>)
        ensures
            walked(with_statement(old(self)@, &Statement::Assign(*assign)), r, final(self)@),
    {
        match self.current_vars.get(assign.var_name.as_str()) {
            Some(vd) => {
                let vd: &'a VarDecl = *vd;
                self.var_map.insert(assign.label.0, vd);
            },
            None => {
                return Err(CompileError::UnresolvedName);
            },
        }
        self.visit_expression(&assign.expr)
    }

    pub fn visit_return(&mut self, ret: &'a Return) -> (r: Result<(), CompileError>)
        ensures
            walked(with_statement(old(self)@, &Statement::Return(*ret)), r, final(self)@),
    {
        match &ret.expr {
            Some(e) => self.visit_expression(e),
            None => Ok(()),
        }
    }

    pub fn visit_if_then_else(&mut self, ite: &'a IfThenElse) -> (r: Result<(), CompileError>)
        ensures
            walked(with_statement(old(self)@, &Statement::IfThenElse(*ite)), r, final(self)@),
        decreases ite,
    {
        self.visit_expression(&ite.condition)?;
        self.visit_statements(&ite.then_block)?;
        self.visit_statements(&ite.else_block)
    }

    pub fn visit_statement(&mut self, statement: &'a Statement) -> (r: Result<(), CompileError>)
        ensures
            walked(with_statement(old(self)@, statement), r, final(self)@),
        decreases statement,
    {
        match statement {
            Statement::Assign(a) => self.visit_assign(a),
            Statement::Expression(e) => self.visit_expression(e),
            Statement::Return(r) => self.visit_return(r),
            Statement::VarDecl(vd) => self.visit_var_decl(vd),
            Statement::IfThenElse(ite) => self.visit_if_then_else(ite),
        }
    }

    fn visit_statements(&mut self, statements: &'a Vec<Statement>) -> (r: Result<
        (),
        CompileError,
    >)
        ensures
            walked(with_statements(old(self)@, statements@, 0), r, final(self)@),
        decreases statements,
    {
        let mut i: usize = 0;
        while i < statements.len()
            invariant
                i <= statements.len(),
                with_statements(self@, statements@, i as int) == with_statements(
                    old(self)@,
                    statements@,
                    0,
                ),
            decreases statements.len() - i,
        {
            self.visit_statement(&statements[i])?;
            i = i + 1;
        }
        Ok(())
    }

    pub fn visit_method_decl(&mut self, decl: &'a MethodDecl) -> (r: Result<(), CompileError>)
        ensures
            walked(with_method_decl(old(self)@, decl), r, final(self)@),
    {
        self.current_vars.clear();
        let main_name = String::from_str("Main");
        if decl.is_static && decl.name == main_name {
            if self.entry_point.is_some() {
                self.errors.push(
                    PreprocessError::MultiEntryPoint(decl.label.assert_as_method_decl()),
                );
            }
            self.entry_point = Some(decl);
        }
        self.insert_node(Node::MethodDecl(decl))?;
        self.visit_var_decls(&decl.params)?;
        self.visit_statements(&decl.body)
    }

    pub fn visit_field_decl(&mut self, decl: &'a FieldDecl) -> (r: Result<(), CompileError>)
        ensures
            walked(with_field_decl(old(self)@, decl), r, final(self)@),
    {
        self.insert_node(Node::FieldDecl(decl))?;
        match &decl.assignment {
            Some(e) => {
                let class = self.current_class;
                self.current_class = None;
                self.visit_expression(e)?;
                self.current_class = class;
                Ok(())
            },
            None => Ok(()),
        }
    }

    pub fn visit_class_item(&mut self, class_item: &'a ClassItem) -> (r: Result<(), CompileError>)
        ensures
            walked(with_class_item(old(self)@, class_item), r, final(self)@),
    {
        match class_item {
            ClassItem::FieldDecl(fd) => self.visit_field_decl(fd),
            ClassItem::MethodDecl(md) => self.visit_method_decl(md),
        }
    }

    pub fn visit_class_decl(&mut self, decl: &'a ClassDecl) -> (r: Result<(), CompileError>)
        ensures
            walked(with_class_decl(old(self)@, decl), r, final(self)@),
    {
        self.current_class = Some(decl);
        if self.classes_by_name.contains_key(decl.name.as_str()) {
            self.errors.push(PreprocessError::MultiClassDecl(decl.label.assert_as_class_decl()));
        }
        self.classes_by_name.insert(decl.name.clone(), decl);
        self.insert_node(Node::ClassDecl(decl))?;
        let mut i: usize = 0;
        while i < decl.items.len()
            invariant
                i <= decl.items.len(),
                with_class_items(self@, decl.items@, i as int) == with_class_decl(old(self)@, decl),
            decreases decl.items.len() - i,
        {
            self.visit_class_item(&decl.items[i])?;
            i = i + 1;
        }
        Ok(())
    }

    /// Walks over a whole program.
    pub fn visit_ast(&mut self, program: &'a Vec<TopItem>) -> (r: Result<(), CompileError>)
        ensures
            walked(with_top_items(old(self)@, program@, 0), r, final(self)@),
    {
        let mut i: usize = 0;
        while i < program.len()
            invariant
                i <= program.len(),
                with_top_items(self@, program@, i as int) == with_top_items(
                    old(self)@,
                    program@,
                    0,
                ),
            decreases program.len() - i,
        {
            match &program[i] {
                TopItem::ClassDecl(cd) => {
                    self.visit_class_decl(cd)?;
                },
            }
            i = i + 1;
        }
        Ok(())
    }
}

/// What the pass hands on, as plain maps.
pub struct AstView<'a> {
    pub nodes: Map<u32, Node<'a>>,
    pub classes_by_name: Map<Seq<char>, &'a ClassDecl>,
    pub var_map: Map<u32, &'a VarDecl>,
    pub this_map: Map<u32, &'a ClassDecl>,
    pub entry_point: &'a MethodDecl,
}

/// What the pass hands on.
pub struct AstData<'a> {
    /// Every labelled node, by label.
    pub nodes: HashMap<u32, Node<'a>>,
    /// Every class, by name.
    pub classes_by_name: StringHashMap<&'a ClassDecl>,
    /// For the label of an identifier or of an assignment, the declaration
    /// of the variable it names.
    pub var_map: HashMap<u32, &'a VarDecl>,
    /// For the label of a `this`, the class it stands in.
    pub this_map: HashMap<u32, &'a ClassDecl>,
    /// The static method called `Main`.
    pub entry_point: &'a MethodDecl,
}

impl<'a> View for AstData<'a> {
    type V = AstView<'a>;

    open spec fn view(&self) -> AstView<'a> {
        AstView {
            nodes: self.nodes@,
            classes_by_name: self.classes_by_name@,
            var_map: self.var_map@,
            this_map: self.this_map@,
            entry_point: self.entry_point,
        }
    }
}

/// What the pass makes of the program `p`: the tables after the walk, unless
/// the walk stopped on a fault, collected one, or found no entry point. Of
/// several collected faults the first is reported.
pub open spec fn preprocessed<'a>(p: &'a Program) -> Result<AstView<'a>, CompileError> {
    match with_top_items(empty_tables(), p.items@, 0) {
        Ok(t) => if t.errors.len() > 0 {
            Err(t.errors[0].spec_kind())
        } else {
            match t.entry_point {
                Some(ep) => Ok(
                    AstView {
                        nodes: t.nodes,
                        classes_by_name: t.classes_by_name,
                        var_map: t.var_map,
                        this_map: t.this_map,
                        entry_point: ep,
                    },
                ),
                None => Err(CompileError::NoEntryPoint),
            }
        },
        Err(err) => Err(err),
    }
}

/// The pass itself.
pub struct AstPreprocessor;

impl AstPreprocessor {
    /// Indexes the program `p`, or says why it is rejected.
    pub fn preprocess<'a>(p: &'a Program) -> (r: Result<AstData<'a>, CompileError>)
        ensures
            match preprocessed(p) {
                Ok(v) => r matches Ok(data) && data@ == v,
                Err(err) => r matches Err(e) && e == err,
            },
    {
        let mut visitor = PreprocessVisitor::new();
        match visitor.visit_ast(&p.items) {
            Ok(()) => {},
            Err(e) => {
                return Err(e);
            },
        }
        if visitor.errors.len() > 0 {
            return Err(visitor.errors[0].kind());
        }
        match visitor.entry_point {
            Some(ep) => Ok(
                AstData {
                    nodes: visitor.nodes,
                    classes_by_name: visitor.classes_by_name,
                    var_map: visitor.var_map,
                    this_map: visitor.this_map,
                    entry_point: ep,
                },
            ),
            None => Err(CompileError::NoEntryPoint),
        }
    }
}

} // verus!
