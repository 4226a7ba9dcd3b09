//! Writes a syntax tree out as source text.

use vstd::prelude::*;
use vstd::string::StringExecFns;
use crate::ast::{
    BinaryOperator, ClassItem, Expression, LiteralKind, MethodDecl, Program, Statement, TopItem,
    Type, VarDecl,
};
use crate::interpreter::render::{decimal, int_to_string, separator};

verus! {

/// The indentation one block further in. It stops growing where a 32-bit
/// number ends.
pub open spec fn deeper(level: u32) -> u32 {
    if level <= u32::MAX - 4 {
        (level + 4) as u32
    } else {
        u32::MAX
    }
}

/// `n` spaces.
pub open spec fn spaces(n: nat) -> Seq<char>
    decreases n,
{
    if n == 0 {
        Seq::empty()
    } else {
        spaces((n - 1) as nat) + " "@
    }
}

/// The type `ty` as it is written.
pub open spec fn type_text(ty: Type) -> Seq<char>
    decreases ty,
{
    match ty {
        Type::Array(inner) => type_text(*inner) + "[]"@,
        Type::Custom(name) => name@,
        Type::Void => "void"@,
    }
}

/// The operator `operator` as it is written.
pub open spec fn operator_text(operator: BinaryOperator) -> Seq<char> {
    match operator {
        BinaryOperator::Add => " + "@,
        BinaryOperator::Sub => " - "@,
        BinaryOperator::Mul => " * "@,
        BinaryOperator::Div => " / "@,
        BinaryOperator::Eq => " == "@,
    }
}

/// The expression `e` as it is written.
pub open spec fn expression_text(e: &Expression) -> Seq<char>
    decreases e,
{
    match *e {
        Expression::BinaryOp(op) => expression_text(&*op.left) + operator_text(op.operator)
            + expression_text(&*op.right),
        Expression::FieldAccess(access) => expression_text(&*access.target) + "."@
            + access.field_name@,
        Expression::Literal(l) => match l.kind {
            LiteralKind::Int(i) => decimal(i as int),
            LiteralKind::String(s) => "\""@ + s@ + "\""@,
            LiteralKind::Bool(b) => if b {
                "true"@
            } else {
                "false"@
            },
            LiteralKind::Null => "null"@,
            LiteralKind::Array(ty, elements) => "new "@ + type_text(ty) + "[] { "@
                + expressions_text(elements@, elements@.len() as int) + " }"@,
        },
        Expression::MethodCall(call) => expression_text(&*call.target) + "."@ + call.method_name@
            + "("@ + expressions_text(call.args@, call.args@.len() as int) + ")"@,
        Expression::New(new) => "new "@ + new.class_name@ + "()"@,
        Expression::Identifier(i) => i.name@,
        Expression::This(_) => "this"@,
    }
}

/// The first `upto` of `es` as they are written, with `, ` between them.
pub open spec fn expressions_text(es: Seq<Expression>, upto: int) -> Seq<char>
    decreases es, upto,
{
    if 0 < upto <= es.len() {
        expressions_text(es, upto - 1) + separator(upto == 1) + expression_text(&es[upto - 1])
    } else {
        Seq::empty()
    }
}

/// The first `upto` of the parameters `params` as they are written.
pub open spec fn params_text(params: Seq<VarDecl>, upto: int) -> Seq<char>
    decreases upto,
{
    if 0 < upto <= params.len() {
        params_text(params, upto - 1) + separator(upto == 1) + type_text(params[upto - 1].ty)
            + " "@ + params[upto - 1].var_name@
    } else {
        Seq::empty()
    }
}

/// ` = ` and the expression `e`, if there is one.
pub open spec fn initializer_text(e: Option<Expression>) -> Seq<char> {
    match e {
        Some(e) => " = "@ + expression_text(&e),
        None => Seq::empty(),
    }
}

/// What follows the indentation of the statement `s`, where the statement
/// is indented by `level` spaces.
pub open spec fn statement_text(s: &Statement, level: u32) -> Seq<char>
    decreases s,
{
    match *s {
        Statement::Assign(assign) => assign.var_name@ + " = "@ + expression_text(&assign.expr)
            + ";\n"@,
        Statement::Expression(e) => expression_text(&e) + ";\n"@,
        Statement::Return(ret) => "return"@ + (match ret.expr {
            Some(e) => " "@ + expression_text(&e),
            None => Seq::empty(),
        }) + ";\n"@,
        Statement::VarDecl(decl) => type_text(decl.ty) + " "@ + decl.var_name@ + initializer_text(
            decl.expr,
        ) + ";\n"@,
        Statement::IfThenElse(ite) => "if ("@ + expression_text(&ite.condition) + ") "@
            + block_text(ite.then_block@, level) + spaces(level as nat) + "else "@ + block_text(
            ite.else_block@,
            level,
        ),
    }
}

/// The first `upto` of the statements `ss`, each on lines of its own and
/// indented by `level` spaces.
pub open spec fn statements_text(ss: Seq<Statement>, level: u32, upto: int) -> Seq<char>
    decreases ss, upto,
{
    if 0 < upto <= ss.len() {
        statements_text(ss, level, upto - 1) + spaces(level as nat) + statement_text(
            &ss[upto - 1],
            level,
        )
    } else {
        Seq::empty()
    }
}

/// The block of the statements `ss`, opened where the text stands and
/// closed at an indentation of `level` spaces.
pub open spec fn block_text(ss: Seq<Statement>, level: u32) -> Seq<char>
    decreases ss, ss.len() + 1,
{
    "{\n"@ + statements_text(ss, deeper(level), ss.len() as int) + spaces(level as nat) + "}\n"@
}

/// The head of the method `md`, up to its block.
pub open spec fn method_head_text(md: &MethodDecl) -> Seq<char> {
    (if md.is_static {
        "static "@
    } else {
        Seq::empty()
    }) + type_text(md.return_ty) + " "@ + md.name@ + "("@ + params_text(
        md.params@,
        md.params@.len() as int,
    ) + ") "@
}

/// What follows the indentation of the class item `ci`.
pub open spec fn class_item_text(ci: &ClassItem, level: u32) -> Seq<char> {
    "public "@ + (match *ci {
        ClassItem::FieldDecl(fd) => type_text(fd.ty) + " "@ + fd.name@ + initializer_text(
            fd.assignment,
        ) + ";\n"@,
        ClassItem::MethodDecl(md) => method_head_text(&md) + block_text(md.body@, level),
    })
}

/// The first `upto` of the class items `items`, indented by `level` spaces.
pub open spec fn class_items_text(items: Seq<ClassItem>, level: u32, upto: int) -> Seq<char>
    decreases upto,
{
    if 0 < upto <= items.len() {
        class_items_text(items, level, upto - 1) + spaces(level as nat) + class_item_text(
            &items[upto - 1],
            level,
        )
    } else {
        Seq::empty()
    }
}

/// The class `i`, written at an indentation of `level` spaces.
pub open spec fn top_item_text(i: &TopItem, level: u32) -> Seq<char> {
    match *i {
        TopItem::ClassDecl(cd) => "class "@ + cd.name@ + " "@ + "{\n"@ + class_items_text(
            cd.items@,
            deeper(level),
            cd.items@.len() as int,
        ) + spaces(level as nat) + "}\n"@,
    }
}

/// The first `upto` of the classes `items`, with an empty line after each.
pub open spec fn program_text(items: Seq<TopItem>, level: u32, upto: int) -> Seq<char>
    decreases upto,
{
    if 0 < upto <= items.len() {
        program_text(items, level, upto - 1) + top_item_text(&items[upto - 1], level) + "\n"@
    } else {
        Seq::empty()
    }
}

/// Writes syntax out, indenting by four spaces for each block.
pub struct PrettyPrinter {
    indentation: u32,
}

impl PrettyPrinter {
    /// The number of spaces by which the printer indents now.
    pub closed spec fn level(&self) -> u32 {
        self.indentation
    }

    pub fn new() -> (r: PrettyPrinter)
        ensures
            r.level() == 0,
    {
        PrettyPrinter { indentation: 0 }
    }

    /// Opens a block.
    fn bracket_open(&mut self, f: &mut String)
        ensures
            final(self).level() == deeper(old(self).level()),
            final(f)@ == old(f)@ + "{\n"@,
    {
        self.indentation = if self.indentation <= u32::MAX - 4 {
            self.indentation + 4
        } else {
            u32::MAX
        };
        f.append("{\n");
    }

    /// Closes a block, at the indentation `outer`.
    fn bracket_close(&mut self, f: &mut String, outer: u32)
        ensures
            final(self).level() == outer,
            final(f)@ == old(f)@ + spaces(outer as nat) + "}\n"@,
    {
        self.indentation = outer;
        self.indent(f);
        f.append("}\n");
    }

    /// Writes the indentation.
    fn indent(&self, f: &mut String)
        ensures
            final(f)@ == old(f)@ + spaces(self.level() as nat),
    {
        let mut i: u32 = 0;
        while i < self.indentation
            invariant
                i <= self.indentation,
                f@ == old(f)@ + spaces(i as nat),
            decreases self.indentation - i,
        {
            f.append(" ");
            i = i + 1;
            assert(f@ =~= old(f)@ + spaces(i as nat));
        }
    }

    fn print_type(&self, f: &mut String, ty: &Type)
        ensures
            final(f)@ == old(f)@ + type_text(*ty),
        decreases ty,
    {
        match ty {
            Type::Array(inner) => {
                self.print_type(f, inner);
                f.append("[]");
            },
            Type::Custom(name) => {
                f.append(name.as_str());
            },
            Type::Void => {
                f.append("void");
            },
        }
        assert(f@ =~= old(f)@ + type_text(*ty));
    }

    fn print_initializer(&self, f: &mut String, e: &Option<Expression>)
        ensures
            final(f)@ == old(f)@ + initializer_text(*e),
    {
        match e {
            Some(e) => {
                f.append(" = ");
                self.print_expression(f, e);
            },
            None => {},
        }
        assert(f@ =~= old(f)@ + initializer_text(*e));
    }

    fn print_expressions(&self, f: &mut String, es: &Vec<Expression>)
        ensures
            final(f)@ == old(f)@ + expressions_text(es@, es@.len() as int),
        decreases es,
    {
        let mut i: usize = 0;
        while i < es.len()
            invariant
                i <= es.len(),
                f@ == old(f)@ + expressions_text(es@, i as int),
            decreases es.len() - i,
        {
            if i > 0 {
                f.append(", ");
            }
            self.print_expression(f, &es[i]);
            assert(f@ =~= old(f)@ + expressions_text(es@, i + 1));
            i = i + 1;
        }
    }

    fn print_params(&self, f: &mut String, params: &Vec<VarDecl>)
        ensures
            final(f)@ == old(f)@ + params_text(params@, params@.len() as int),
    {
        let mut i: usize = 0;
        while i < params.len()
            invariant
                i <= params.len(),
                f@ == old(f)@ + params_text(params@, i as int),
            decreases params.len() - i,
        {
            if i > 0 {
                f.append(", ");
            }
            self.print_type(f, &params[i].ty);
            f.append(" ");
            f.append(params[i].var_name.as_str());
            assert(f@ =~= old(f)@ + params_text(params@, i + 1));
            i = i + 1;
        }
    }

    /// Writes the statements `block` as a block.
    fn block(&mut self, f: &mut String, block: &Vec<Statement>)
        ensures
            final(self).level() == old(self).level(),
            final(f)@ == old(f)@ + block_text(block@, old(self).level()),
        decreases block, block.len() + 1,
    {
        let outer: u32 = self.indentation;
        self.bracket_open(f);
        let ghost opened = f@;
        let mut i: usize = 0;
        while i < block.len()
            invariant
                i <= block.len(),
                self.level() == deeper(outer),
                outer == old(self).level(),
                opened == old(f)@ + "{\n"@,
                f@ == opened + statements_text(block@, deeper(outer), i as int),
            decreases block.len() - i,
        {
            self.print_statement(f, &block[i]);
            assert(f@ =~= opened + statements_text(block@, deeper(outer), i + 1));
            i = i + 1;
        }
        self.bracket_close(f, outer);
        assert(f@ =~= old(f)@ + block_text(block@, outer));
    }

    /// Writes the whole program.
    pub fn print_program(&mut self, f: &mut String, p: &Program)
        ensures
            final(self).level() == old(self).level(),
            final(f)@ == old(f)@ + program_text(p.items@, old(self).level(), p.items@.len() as int),
    {
        let mut i: usize = 0;
        while i < p.items.len()
            invariant
                i <= p.items.len(),
                self.level() == old(self).level(),
                f@ == old(f)@ + program_text(p.items@, self.level(), i as int),
            decreases p.items.len() - i,
        {
            self.print_top_item(f, &p.items[i]);
            f.append("\n");
            assert(f@ =~= old(f)@ + program_text(p.items@, self.level(), i + 1));
            i = i + 1;
        }
    }

    /// Writes the head of a method, up to its block.
    fn print_method_head(&self, f: &mut String, md: &MethodDecl)
        ensures
            final(f)@ == old(f)@ + method_head_text(md),
    {
        if md.is_static {
            f.append("static ");
        }
        self.print_type(f, &md.return_ty);
        f.append(" ");
        f.append(md.name.as_str());
        f.append("(");
        self.print_params(f, &md.params);
        f.append(") ");
        assert(f@ =~= old(f)@ + method_head_text(md));
    }

    /// Writes a field or a method on lines of its own.
    fn print_class_item(&mut self, f: &mut String, ci: &ClassItem)
        ensures
            final(self).level() == old(self).level(),
            final(f)@ == old(f)@ + spaces(old(self).level() as nat) + class_item_text(
                ci,
                old(self).level(),
            ),
    {
        self.indent(f);
        let ghost start = f@;
        // All fields and methods are public.
        f.append("public ");
        match ci {
            ClassItem::FieldDecl(fd) => {
                self.print_type(f, &fd.ty);
                f.append(" ");
                f.append(fd.name.as_str());
                self.print_initializer(f, &fd.assignment);
                f.append(";\n");
            },
            ClassItem::MethodDecl(md) => {
                self.print_method_head(f, md);
                self.block(f, &md.body);
            },
        }
        assert(f@ =~= start + class_item_text(ci, self.level()));
    }

    /// Writes a class.
    pub fn print_top_item(&mut self, f: &mut String, i: &TopItem)
        ensures
            final(self).level() == old(self).level(),
            final(f)@ == old(f)@ + top_item_text(i, old(self).level()),
    {
        let outer: u32 = self.indentation;
        match i {
            TopItem::ClassDecl(cd) => {
                f.append("class ");
                f.append(cd.name.as_str());
                f.append(" ");
                self.bracket_open(f);
                let ghost opened = f@;
                assert(opened =~= old(f)@ + ("class "@ + cd.name@ + " "@ + "{\n"@));
                let mut k: usize = 0;
                while k < cd.items.len()
                    invariant
                        k <= cd.items.len(),
                        self.level() == deeper(outer),
                        f@ == opened + class_items_text(cd.items@, deeper(outer), k as int),
                    decreases cd.items.len() - k,
                {
                    self.print_class_item(f, &cd.items[k]);
                    assert(f@ =~= opened + class_items_text(cd.items@, deeper(outer), k + 1));
                    k = k + 1;
                }
                self.bracket_close(f, outer);
                assert(f@ =~= old(f)@ + top_item_text(i, outer));
            },
        }
    }

    /// Writes a statement on lines of its own.
    pub fn print_statement(&mut self, f: &mut String, s: &Statement)
        ensures
            final(self).level() == old(self).level(),
            final(f)@ == old(f)@ + spaces(old(self).level() as nat) + statement_text(
                s,
                old(self).level(),
            ),
        decreases s,
    {
        self.indent(f);
        let ghost start = f@;
        match s {
            Statement::Assign(assign) => {
                f.append(assign.var_name.as_str());
                f.append(" = ");
                self.print_expression(f, &assign.expr);
                f.append(";\n");
            },
            Statement::Expression(expr) => {
                self.print_expression(f, expr);
                f.append(";\n");
            },
            Statement::Return(ret) => {
                f.append("return");
                match &ret.expr {
                    Some(expr) => {
                        f.append(" ");
                        self.print_expression(f, expr);
                    },
                    None => {},
                }
                f.append(";\n");
            },
            Statement::VarDecl(decl) => {
                self.print_type(f, &decl.ty);
                f.append(" ");
                f.append(decl.var_name.as_str());
                self.print_initializer(f, &decl.expr);
                f.append(";\n");
            },
            Statement::IfThenElse(ite) => {
                f.append("if (");
                self.print_expression(f, &ite.condition);
                f.append(") ");
                self.block(f, &ite.then_block);
                self.indent(f);
                f.append("else ");
                self.block(f, &ite.else_block);
            },
        }
        assert(f@ =~= start + statement_text(s, self.level()));
    }

    /// Writes an expression.
    pub fn print_expression(&self, f: &mut String, e: &Expression)
        ensures
            final(f)@ == old(f)@ + expression_text(e),
        decreases e,
    {
        match e {
            Expression::BinaryOp(op) => {
                self.print_expression(f, &op.left);
                match op.operator {
                    BinaryOperator::Add => f.append(" + "),
                    BinaryOperator::Sub => f.append(" - "),
                    BinaryOperator::Mul => f.append(" * "),
                    BinaryOperator::Div => f.append(" / "),
                    BinaryOperator::Eq => f.append(" == "),
                }
                self.print_expression(f, &op.right);
            },
            Expression::FieldAccess(access) => {
                self.print_expression(f, &access.target);
                f.append(".");
                f.append(access.field_name.as_str());
            },
            Expression::Literal(l) => match &l.kind {
                LiteralKind::Int(x) => {
                    let text = int_to_string(*x);
                    f.append(text.as_str());
                },
                LiteralKind::String(s) => {
                    f.append("\"");
                    f.append(s.as_str());
                    f.append("\"");
                },
                LiteralKind::Bool(b) => {
                    if *b {
                        f.append("true");
                    } else {
                        f.append("false");
                    }
                },
                LiteralKind::Null => {
                    f.append("null");
                },
                LiteralKind::Array(ty, elements) => {
                    f.append("new ");
                    self.print_type(f, ty);
                    f.append("[] { ");
                    self.print_expressions(f, elements);
                    f.append(" }");
                },
            },
            Expression::MethodCall(call) => {
                self.print_expression(f, &call.target);
                f.append(".");
                f.append(call.method_name.as_str());
                f.append("(");
                self.print_expressions(f, &call.args);
                f.append(")");
            },
            Expression::New(new) => {
                f.append("new ");
                f.append(new.class_name.as_str());
                f.append("()");
            },
            Expression::Identifier(s) => {
                f.append(s.name.as_str());
            },
            Expression::This(_) => {
                f.append("this");
            },
        }
        assert(f@ =~= old(f)@ + expression_text(e));
    }
}

/// The program `p` as source text.
pub fn program_to_string(p: &Program) -> (r: String)
    ensures
        r@ == program_text(p.items@, 0, p.items@.len() as int),
{
    let mut out = String::new();
    let mut printer = PrettyPrinter::new();
    printer.print_program(&mut out, p);
    assert(out@ =~= program_text(p.items@, 0, p.items@.len() as int));
    out
}

} // verus!
