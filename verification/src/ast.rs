//! The syntax tree: a closed family of node types, each carrying a label.

use vstd::prelude::*;
use vstd::string::StringExecFns;
use crate::labels;

verus! {

/// Identity of a syntax-tree node. Two nodes are the same node exactly when
/// their labels are equal.
#[derive(Clone, Copy, Debug, PartialEq, Eq, Structural, Hash)]
pub struct Label(pub u32);

/// Source of fresh labels. Labels are handed out in increasing order, so a
/// tree whose labels all come from one allocator has no label twice.
pub struct LabelAllocator {
    next: u32,
}

impl LabelAllocator {
    /// Number of labels handed out so far; also the next label.
    pub closed spec fn issued(&self) -> nat {
        self.next as nat
    }

    pub fn new() -> (r: LabelAllocator)
        ensures
            r.issued() == 0,
    {
        LabelAllocator { next: 0 }
    }

    /// Whether every label has been handed out.
    pub fn is_exhausted(&self) -> (r: bool)
        ensures
            r == (self.issued() == u32::MAX),
    {
        self.next == u32::MAX
    }
}

/// Hands out the next label of `allocator`.
pub fn fresh_label(allocator: &mut LabelAllocator) -> (label: Label)
    requires
        old(allocator).issued() < u32::MAX,
    ensures
        label.0 == old(allocator).issued(),
        final(allocator).issued() == old(allocator).issued() + 1,
{
    let current: u32 = allocator.next;
    allocator.next = current + 1;
    Label(current)
}

/// A type as written in the source.
#[derive(Debug)]
pub enum Type {
    Array(Box<Type>),
    Custom(String),
    Void,
}

/// A program: a list of top-level items.
#[derive(Debug)]
pub struct Program {
    pub items: Vec<TopItem>,
}

/// Top-level items.
#[derive(Debug)]
pub enum TopItem {
    ClassDecl(ClassDecl),
}

#[derive(Debug)]
pub struct ClassDecl {
    pub label: Label,
    pub name: String,
    pub items: Vec<ClassItem>,
}

/// Class items.
#[derive(Debug)]
pub enum ClassItem {
    FieldDecl(FieldDecl),
    MethodDecl(MethodDecl),
}

#[derive(Debug)]
pub struct FieldDecl {
    pub label: Label,
    pub name: String,
    pub ty: Type,
    pub assignment: Option<Expression>,
}

#[derive(Debug)]
pub struct MethodDecl {
    pub label: Label,
    pub name: String,
    pub params: Vec<VarDecl>,
    pub body: Vec<Statement>,
    pub is_static: bool,
    pub return_ty: Type,
}

/// Statements.
#[derive(Debug)]
pub enum Statement {
    Assign(Assign),
    Expression(Expression),
    Return(Return),
    VarDecl(VarDecl),
    IfThenElse(IfThenElse),
}

#[derive(Debug)]
pub struct Assign {
    pub label: Label,
    pub var_name: String,
    pub expr: Expression,
}

#[derive(Debug)]
pub struct Return {
    pub label: Label,
    pub expr: Option<Expression>,
}

#[derive(Debug)]
pub struct VarDecl {
    pub label: Label,
    pub var_name: String,
    pub ty: Type,
    pub expr: Option<Expression>,
}

#[derive(Debug)]
pub struct IfThenElse {
    pub label: Label,
    pub condition: Expression,
    pub then_block: Vec<Statement>,
    pub else_block: Vec<Statement>,
}

/// Expressions.
#[derive(Debug)]
pub enum Expression {
    BinaryOp(BinaryOp),
    FieldAccess(FieldAccess),
    Literal(Literal),
    /// Method call; the method may be static.
    MethodCall(MethodCall),
    /// Construction of an object.
    New(New),
    /// A variable, or a class name where a static method is called.
    Identifier(Identifier),
    /// The `this` keyword.
    This(This),
}

#[derive(Debug)]
pub struct BinaryOp {
    pub label: Label,
    pub operator: BinaryOperator,
    pub left: Box<Expression>,
    pub right: Box<Expression>,
}

#[derive(Debug)]
pub struct FieldAccess {
    pub label: Label,
    pub target: Box<Expression>,
    pub field_name: String,
}

#[derive(Debug)]
pub struct Literal {
    pub label: Label,
    pub kind: LiteralKind,
}

#[derive(Debug)]
pub struct MethodCall {
    pub label: Label,
    pub target: Box<Expression>,
    pub method_name: String,
    pub args: Vec<Expression>,
}

#[derive(Debug)]
pub struct New {
    pub label: Label,
    pub class_name: String,
}

#[derive(Debug)]
pub struct Identifier {
    pub label: Label,
    pub name: String,
}

#[derive(Debug)]
pub struct This {
    pub label: Label,
}

/// Literals.
#[derive(Debug)]
pub enum LiteralKind {
    Int(i64),
    String(String),
    Bool(bool),
    /// An array literal: the element type and the elements.
    Array(Type, Vec<Expression>),
    Null,
}

/// Binary operators. The first four take and give integers; `Eq` takes
/// integers and gives a boolean.
#[derive(Clone, Copy, Debug, PartialEq, Eq, Structural)]
pub enum BinaryOperator {
    Add,
    Sub,
    Mul,
    Div,
    Eq,
}

impl Expression {
    /// The label of the node at the root of this expression.
    pub open spec fn spec_label(self) -> Label {
        match self {
            Expression::BinaryOp(x) => x.label,
            Expression::FieldAccess(x) => x.label,
            Expression::Literal(x) => x.label,
            Expression::MethodCall(x) => x.label,
            Expression::New(x) => x.label,
            Expression::Identifier(x) => x.label,
            Expression::This(x) => x.label,
        }
    }

    pub fn label(&self) -> (r: labels::Expression)
        ensures
            r.0 == self.spec_label(),
    {
        match self {
            Expression::BinaryOp(x) => labels::Expression(x.label),
            Expression::FieldAccess(x) => labels::Expression(x.label),
            Expression::Literal(x) => labels::Expression(x.label),
            Expression::MethodCall(x) => labels::Expression(x.label),
            Expression::New(x) => labels::Expression(x.label),
            Expression::Identifier(x) => labels::Expression(x.label),
            Expression::This(x) => labels::Expression(x.label),
        }
    }

    /// The identifier that this expression is, if it is one.
    pub fn identifier(&self) -> (r: Option<&Identifier>)
        ensures
            r == (match *self {
                Expression::Identifier(i) => Some(&i),
                _ => None,
            }),
    {
        match self {
            Expression::Identifier(i) => Some(i),
            _ => None,
        }
    }
}

impl MethodCall {
    /// Whether this call has the shape `Console.WriteLine(..)`, which is
    /// built in.
    pub open spec fn spec_is_console_write_line(self) -> bool {
        &&& *self.target matches Expression::Identifier(i)
        &&& i.name@ == "Console"@
        &&& self.method_name@ == "WriteLine"@
    }

    pub fn is_console_write_line(&self) -> (r: bool)
        ensures
            r == self.spec_is_console_write_line(),
    {
        match &*self.target {
            Expression::Identifier(i) => {
                let console = String::from_str("Console");
                let write_line = String::from_str("WriteLine");
                i.name == console && self.method_name == write_line
            },
            _ => false,
        }
    }
}

impl ClassItem {
    pub fn method_decl(&self) -> (r: Option<&MethodDecl>)
        ensures
            r == (match *self {
                ClassItem::MethodDecl(m) => Some(&m),
                _ => None,
            }),
    {
        match self {
            ClassItem::MethodDecl(m) => Some(m),
            _ => None,
        }
    }

    pub fn field_decl(&self) -> (r: Option<&FieldDecl>)
        ensures
            r == (match *self {
                ClassItem::FieldDecl(f) => Some(&f),
                _ => None,
            }),
    {
        match self {
            ClassItem::FieldDecl(f) => Some(f),
            _ => None,
        }
    }
}

/// The first field among `items[from..]` that is called `name`.
pub open spec fn first_field(items: Seq<ClassItem>, name: Seq<char>, from: int) -> Option<FieldDecl>
    decreases items.len() - from,
{
    if 0 <= from < items.len() {
        match items[from] {
            ClassItem::FieldDecl(f) if f.name@ == name => Some(f),
            _ => first_field(items, name, from + 1),
        }
    } else {
        None
    }
}

/// The first method among `items[from..]` that is called `name` and, where
/// `staticness` is given, is static or not as it says.
pub open spec fn first_method(
    items: Seq<ClassItem>,
    name: Seq<char>,
    staticness: Option<bool>,
    from: int,
) -> Option<MethodDecl>
    decreases items.len() - from,
{
    if 0 <= from < items.len() {
        match items[from] {
            ClassItem::MethodDecl(m) if m.name@ == name && (staticness is None || staticness
                == Some(m.is_static)) => Some(m),
            _ => first_method(items, name, staticness, from + 1),
        }
    } else {
        None
    }
}

impl ClassDecl {
    fn search_method(&self, name: &str, staticness: Option<bool>) -> (r: Option<&MethodDecl>)
        ensures
            r.is_some() == first_method(self.items@, name@, staticness, 0).is_some(),
            r matches Some(m) ==> *m == first_method(self.items@, name@, staticness, 0).unwrap(),
    {
        let key = String::from_str(name);
        let mut i: usize = 0;
        while i < self.items.len()
            invariant
                i <= self.items.len(),
                key@ == name@,
                first_method(self.items@, name@, staticness, i as int) == first_method(
                    self.items@,
                    name@,
                    staticness,
                    0,
                ),
            decreases self.items.len() - i,
        {
            match &self.items[i] {
                ClassItem::MethodDecl(m) => {
                    let fits = match staticness {
                        None => true,
                        Some(s) => s == m.is_static,
                    };
                    if fits && m.name == key {
                        return Some(m);
                    }
                },
                _ => {},
            }
            i = i + 1;
        }
        None
    }

    /// The first field called `name`, if there is one.
    pub fn find_field_decl(&self, name: &str) -> (r: Option<&FieldDecl>)
        ensures
            r.is_some() == first_field(self.items@, name@, 0).is_some(),
            r matches Some(f) ==> *f == first_field(self.items@, name@, 0).unwrap(),
    {
        let key = String::from_str(name);
        let mut i: usize = 0;
        while i < self.items.len()
            invariant
                i <= self.items.len(),
                key@ == name@,
                first_field(self.items@, name@, i as int) == first_field(self.items@, name@, 0),
            decreases self.items.len() - i,
        {
            match &self.items[i] {
                ClassItem::FieldDecl(f) => {
                    if f.name == key {
                        return Some(f);
                    }
                },
                _ => {},
            }
            i = i + 1;
        }
        None
    }

    /// The label of the first field called `name`, if there is one.
    pub fn find_field(&self, name: &str) -> (r: Option<Label>)
        ensures
            r == (match first_field(self.items@, name@, 0) {
                Some(f) => Some(f.label),
                None => None,
            }),
    {
        match self.find_field_decl(name) {
            Some(f) => Some(f.label),
            None => None,
        }
    }

    /// The first method called `name`, static or not, if there is one.
    pub fn find_method_any(&self, name: &str) -> (r: Option<&MethodDecl>)
        ensures
            r.is_some() == first_method(self.items@, name@, None, 0).is_some(),
            r matches Some(m) ==> *m == first_method(self.items@, name@, None, 0).unwrap(),
    {
        self.search_method(name, None)
    }

    /// The label of the first method called `name` that is static exactly
    /// when `is_static` says so, if there is one.
    pub fn find_method(&self, is_static: bool, name: &str) -> (r: Option<Label>)
        ensures
            r == (match first_method(self.items@, name@, Some(is_static), 0) {
                Some(m) => Some(m.label),
                None => None,
            }),
    {
        match self.search_method(name, Some(is_static)) {
            Some(m) => Some(m.label),
            None => None,
        }
    }
}

/// The first `upto` classes of `items`, in order.
pub open spec fn classes_upto<'a>(items: Seq<TopItem>, upto: int) -> Seq<&'a ClassDecl>
    decreases upto,
{
    if 0 < upto <= items.len() {
        match items[upto - 1] {
            TopItem::ClassDecl(cd) => classes_upto(items, upto - 1).push(&cd),
        }
    } else {
        Seq::empty()
    }
}

/// The methods among the first `upto` of `items`, in order.
pub open spec fn methods_upto<'a>(items: Seq<ClassItem>, upto: int) -> Seq<&'a MethodDecl>
    decreases upto,
{
    if 0 < upto <= items.len() {
        match items[upto - 1] {
            ClassItem::MethodDecl(m) => methods_upto(items, upto - 1).push(&m),
            _ => methods_upto(items, upto - 1),
        }
    } else {
        Seq::empty()
    }
}

/// The methods of the first `upto` of `classes`, class by class.
pub open spec fn methods_of_classes<'a>(classes: Seq<&'a ClassDecl>, upto: int) -> Seq<&'a MethodDecl>
    decreases upto,
{
    if 0 < upto <= classes.len() {
        methods_of_classes(classes, upto - 1) + methods_upto(
            classes[upto - 1].items@,
            classes[upto - 1].items@.len() as int,
        )
    } else {
        Seq::empty()
    }
}

impl Program {
    /// The classes of the program, in declaration order.
    pub open spec fn spec_classes(&self) -> Seq<&ClassDecl> {
        classes_upto(self.items@, self.items@.len() as int)
    }

    /// The methods of the program: class by class, and within a class in
    /// declaration order.
    pub open spec fn spec_methods(&self) -> Seq<&MethodDecl> {
        methods_of_classes(self.spec_classes(), self.spec_classes().len() as int)
    }

    pub fn classes<'a>(&'a self) -> (r: Vec<&'a ClassDecl>)
        ensures
            r@ == self.spec_classes(),
            r@.len() == self.items@.len(),
    {
        let mut r: Vec<&'a ClassDecl> = Vec::new();
        let mut i: usize = 0;
        while i < self.items.len()
            invariant
                i <= self.items.len(),
                r@ == classes_upto(self.items@, i as int),
                r@.len() == i,
            decreases self.items.len() - i,
        {
            match &self.items[i] {
                TopItem::ClassDecl(cd) => {
                    r.push(cd);
                },
            }
            i = i + 1;
        }
        r
    }

    pub fn methods<'a>(&'a self) -> (r: Vec<&'a MethodDecl>)
        ensures
            r@ == self.spec_methods(),
    {
        let classes = self.classes();
        let mut r: Vec<&'a MethodDecl> = Vec::new();
        let mut i: usize = 0;
        while i < classes.len()
            invariant
                i <= classes.len(),
                classes@ == self.spec_classes(),
                r@ == methods_of_classes(classes@, i as int),
            decreases classes.len() - i,
        {
            let cd: &'a ClassDecl = classes[i];
            let ghost sofar = r@;
            let mut j: usize = 0;
            while j < cd.items.len()
                invariant
                    j <= cd.items.len(),
                    r@ == sofar + methods_upto(cd.items@, j as int),
                decreases cd.items.len() - j,
            {
                match &cd.items[j] {
                    ClassItem::MethodDecl(md) => {
                        r.push(md);
                    },
                    _ => {},
                }
                j = j + 1;
            }
            i = i + 1;
        }
        r
    }
}

} // verus!
