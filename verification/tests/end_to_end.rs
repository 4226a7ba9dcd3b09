use std::collections::HashMap;

use ondemand::ast::{
    fresh_label, Assign, BinaryOp, BinaryOperator, ClassDecl, ClassItem, Expression, FieldAccess,
    FieldDecl, Identifier, IfThenElse, Label, LabelAllocator, Literal, LiteralKind, MethodCall,
    MethodDecl, New, Program, Return, Statement, This, TopItem, Type, VarDecl,
};
use ondemand::error::CompileError;
use ondemand::interpreter::runtime::RuntimeError;
use ondemand::interpreter::{run, run_with_fuel};
use ondemand::ir;
use ondemand::lowering::{LoweringContext, LoweringOutput};
use ondemand::query_engine::QueryEngine;
use ondemand::type_checker::check;

/// Builds syntax trees; every node gets a fresh label.
struct Builder {
    labels: LabelAllocator,
}

impl Builder {
    fn new() -> Builder {
        Builder { labels: LabelAllocator::new() }
    }

    fn label(&mut self) -> Label {
        assert!(!self.labels.is_exhausted());
        fresh_label(&mut self.labels)
    }

    fn int_ty() -> Type {
        Type::Custom("int".to_string())
    }

    fn literal(&mut self, kind: LiteralKind) -> Expression {
        Expression::Literal(Literal { label: self.label(), kind })
    }

    fn int_lit(&mut self, i: i64) -> Expression {
        self.literal(LiteralKind::Int(i))
    }

    fn string(&mut self, s: &str) -> Expression {
        self.literal(LiteralKind::String(s.to_string()))
    }

    fn var_use(&mut self, name: &str) -> Expression {
        Expression::Identifier(Identifier { label: self.label(), name: name.to_string() })
    }

    fn binary_op(&mut self, operator: BinaryOperator, left: Expression, right: Expression) -> Expression {
        Expression::BinaryOp(BinaryOp {
            label: self.label(),
            operator,
            left: Box::new(left),
            right: Box::new(right),
        })
    }

    fn method_call_on(&mut self, target: Expression, method: &str, args: Vec<Expression>) -> Expression {
        Expression::MethodCall(MethodCall {
            label: self.label(),
            target: Box::new(target),
            method_name: method.to_string(),
            args,
        })
    }

    fn method_call(&mut self, class: &str, method: &str, args: Vec<Expression>) -> Expression {
        let target = self.var_use(class);
        self.method_call_on(target, method, args)
    }

    fn field_access(&mut self, target: Expression, field: &str) -> Expression {
        Expression::FieldAccess(FieldAccess {
            label: self.label(),
            target: Box::new(target),
            field_name: field.to_string(),
        })
    }

    fn new_object(&mut self, class: &str) -> Expression {
        Expression::New(New { label: self.label(), class_name: class.to_string() })
    }

    fn this(&mut self) -> Expression {
        Expression::This(This { label: self.label() })
    }

    fn write_line(&mut self, arg: Expression) -> Statement {
        Statement::Expression(self.method_call("Console", "WriteLine", vec![arg]))
    }

    fn decl(&mut self, ty: Type, name: &str, expr: Option<Expression>) -> Statement {
        Statement::VarDecl(VarDecl { label: self.label(), var_name: name.to_string(), ty, expr })
    }

    fn decl_int(&mut self, name: &str, expr: Expression) -> Statement {
        self.decl(Builder::int_ty(), name, Some(expr))
    }

    fn param(&mut self, ty: Type, name: &str) -> VarDecl {
        VarDecl { label: self.label(), var_name: name.to_string(), ty, expr: None }
    }

    fn assign(&mut self, name: &str, expr: Expression) -> Statement {
        Statement::Assign(Assign { label: self.label(), var_name: name.to_string(), expr })
    }

    fn return_(&mut self, expr: Option<Expression>) -> Statement {
        Statement::Return(Return { label: self.label(), expr })
    }

    fn if_then_else(&mut self, condition: Expression, then_block: Vec<Statement>, else_block: Vec<Statement>) -> Statement {
        Statement::IfThenElse(IfThenElse { label: self.label(), condition, then_block, else_block })
    }

    fn method(&mut self, name: &str, is_static: bool, params: Vec<VarDecl>, return_ty: Type, body: Vec<Statement>) -> ClassItem {
        ClassItem::MethodDecl(MethodDecl {
            label: self.label(),
            name: name.to_string(),
            params,
            body,
            is_static,
            return_ty,
        })
    }

    fn main(&mut self, body: Vec<Statement>) -> ClassItem {
        self.method("Main", true, Vec::new(), Type::Void, body)
    }

    fn field(&mut self, ty: Type, name: &str) -> ClassItem {
        ClassItem::FieldDecl(FieldDecl { label: self.label(), name: name.to_string(), ty, assignment: None })
    }

    fn class(&mut self, name: &str, items: Vec<ClassItem>) -> TopItem {
        TopItem::ClassDecl(ClassDecl { label: self.label(), name: name.to_string(), items })
    }
}

fn program_with_main(b: &mut Builder, body: Vec<Statement>) -> Program {
    let main = b.main(body);
    Program { items: vec![b.class("Program", vec![main])] }
}

fn hello_world() -> Program {
    let mut b = Builder::new();
    let args = b.param(Type::Array(Box::new(Type::Custom("string".to_string()))), "args");
    let hello = b.string("Hello world!");
    let body = vec![b.write_line(hello)];
    let main = b.method("Main", true, vec![args], Type::Void, body);
    Program { items: vec![b.class("Program", vec![main])] }
}

fn large_fn(amount: usize) -> Program {
    let mut b = Builder::new();
    let mut statements = Vec::with_capacity(amount);
    for var_count in 0..amount {
        let var_name = format!("a{}", var_count);
        let prev_expr = if var_count == 0 {
            b.int_lit(42)
        } else {
            let prev_var = format!("a{}", var_count - 1);
            let left = b.var_use(&prev_var);
            let right = b.int_lit(1);
            b.binary_op(BinaryOperator::Add, left, right)
        };
        statements.push(b.decl_int(&var_name, prev_expr));
    }
    program_with_main(&mut b, statements)
}

fn many_classes() -> Program {
    let mut b = Builder::new();
    let mut classes = Vec::new();
    for class_count in 0..1000 {
        let mut methods = Vec::new();
        for method_count in 0..3 {
            let name = format!("Method{}", method_count);
            methods.push(b.method(&name, true, Vec::new(), Type::Void, Vec::new()));
        }
        classes.push(b.class(&format!("C{}", class_count), methods));
    }
    let main = b.main(Vec::new());
    classes.push(b.class("Program", vec![main]));
    Program { items: classes }
}

fn aux_method(b: &mut Builder) -> ClassItem {
    let x = b.param(Builder::int_ty(), "x");
    let two = b.int_lit(2);
    let decl_two = b.decl_int("two", two);
    let left = b.var_use("x");
    let right = b.var_use("two");
    let sum = b.binary_op(BinaryOperator::Add, left, right);
    let decl_sum = b.decl_int("sum", sum);
    let result = b.var_use("sum");
    let ret = b.return_(Some(result));
    b.method("Aux", true, vec![x], Builder::int_ty(), vec![decl_two, decl_sum, ret])
}

fn factorial_method(b: &mut Builder) -> ClassItem {
    let x = b.param(Builder::int_ty(), "x");
    let zero = b.int_lit(0);
    let x_use = b.var_use("x");
    let condition = b.binary_op(BinaryOperator::Eq, zero, x_use);
    let one = b.int_lit(1);
    let then_block = vec![b.return_(Some(one))];
    let x_left = b.var_use("x");
    let x_inner = b.var_use("x");
    let one_inner = b.int_lit(1);
    let minus = b.binary_op(BinaryOperator::Sub, x_inner, one_inner);
    let call = b.method_call("Program", "Factorial", vec![minus]);
    let product = b.binary_op(BinaryOperator::Mul, x_left, call);
    let else_block = vec![b.return_(Some(product))];
    let ite = b.if_then_else(condition, then_block, else_block);
    b.method("Factorial", true, vec![x], Builder::int_ty(), vec![ite])
}

fn small_arithmetic() -> Program {
    let mut b = Builder::new();
    let forty_two = b.int_lit(42);
    let decl_x = b.decl_int("x", forty_two);
    let x = b.var_use("x");
    let call = b.method_call("Program", "Aux", vec![x]);
    let decl_y = b.decl_int("y", call);
    let y = b.var_use("y");
    let print = b.write_line(y);
    let main = b.main(vec![decl_x, decl_y, print]);
    let aux = aux_method(&mut b);
    Program { items: vec![b.class("Program", vec![main, aux])] }
}

fn factorial_program() -> Program {
    let mut b = Builder::new();
    let zero = b.int_lit(0);
    let call_zero = b.method_call("Program", "Factorial", vec![zero]);
    let print_zero = b.write_line(call_zero);
    let five = b.int_lit(5);
    let call_five = b.method_call("Program", "Factorial", vec![five]);
    let print_five = b.write_line(call_five);
    let main = b.main(vec![print_zero, print_five]);
    let factorial = factorial_method(&mut b);
    Program { items: vec![b.class("Program", vec![main, factorial])] }
}

fn variables() -> Program {
    let mut b = Builder::new();
    let mut body = Vec::new();
    let s = b.string("Part one");
    body.push(b.write_line(s));
    let s = b.string("========");
    body.push(b.write_line(s));
    let s = b.string("Hello there!");
    body.push(b.decl(Type::Custom("string".to_string()), "msg", Some(s)));
    let msg = b.var_use("msg");
    body.push(b.decl(Type::Custom("string".to_string()), "msg_copy", Some(msg)));
    let msg_copy = b.var_use("msg_copy");
    body.push(b.write_line(msg_copy));
    let i = b.int_lit(42);
    body.push(b.decl_int("x", i));
    let x = b.var_use("x");
    let call = b.method_call("Program", "Aux", vec![x]);
    body.push(b.decl_int("y", call));
    let y = b.var_use("y");
    let call = b.method_call("Program", "Aux", vec![y]);
    body.push(b.decl_int("z", call));
    for name in ["x", "y", "z"] {
        let v = b.var_use(name);
        body.push(b.write_line(v));
    }
    let s = b.string("Factorial of 5");
    body.push(b.write_line(s));
    let five = b.int_lit(5);
    let call = b.method_call("Program", "Factorial", vec![five]);
    body.push(b.write_line(call));
    let main = b.main(body);
    let aux = aux_method(&mut b);
    let factorial = factorial_method(&mut b);
    Program { items: vec![b.class("Program", vec![main, aux, factorial])] }
}

fn lower(program: &Program) -> Result<LoweringOutput, CompileError> {
    let mut engine = QueryEngine::new(program)?;
    LoweringContext::new(program).lower_program(&mut engine)
}

fn output_of(program: &Program) -> Vec<String> {
    let lowered = lower(program).unwrap();
    run(&lowered.program, lowered.classes).unwrap()
}

fn main_body(program: &Program) -> &Vec<Statement> {
    match &program.items[0] {
        TopItem::ClassDecl(cd) => match &cd.items[0] {
            ClassItem::MethodDecl(md) => &md.body,
            _ => unreachable!(),
        },
    }
}

fn hello_world_ir() -> ir::Program {
    let methods = vec![ir::Method {
        body: vec![ir::Statement::Expression(ir::Expression::Intrinsic(Box::new(
            ir::Intrinsic::PrintLine(ir::Expression::Literal(ir::Literal::String(
                "Hello world!".to_string(),
            ))),
        )))],
    }];
    ir::Program { methods, entry_point: ir::MethodId(0) }
}

#[test]
fn does_not_crash() {
    let out = run(&hello_world_ir(), HashMap::new());
    assert_eq!(out, Ok(vec!["Hello world!".to_string()]));
}

#[test]
fn hello_world_prints_its_line() {
    assert_eq!(output_of(&hello_world()), vec!["Hello world!".to_string()]);
}

#[test]
fn type_of_the_last_expression_of_a_large_method() {
    let program = large_fn(100_000);
    let body = main_body(&program);
    let expr_label = match &body[body.len() - 1] {
        Statement::VarDecl(vd) => vd.expr.as_ref().unwrap().label(),
        _ => unreachable!(),
    };
    let mut engine = QueryEngine::new(&program).ok().unwrap();
    let ty = engine.query_expr_type(expr_label).unwrap().unwrap();
    assert_eq!(ty, engine.types().int_ty());
}

#[test]
fn declaration_of_a_use_in_a_large_method() {
    let program = large_fn(100_000);
    let body = main_body(&program);
    let var_use_label = match &body[body.len() - 1] {
        Statement::VarDecl(vd) => match vd.expr.as_ref().unwrap() {
            Expression::BinaryOp(e) => e.left.label(),
            _ => unreachable!(),
        },
        _ => unreachable!(),
    };
    let var_decl_label = match &body[body.len() - 2] {
        Statement::VarDecl(vd) => vd.label,
        _ => unreachable!(),
    };
    let engine = QueryEngine::new(&program).ok().unwrap();
    let decl = engine.query_var_decl(var_use_label.as_label()).unwrap();
    assert_eq!(decl.as_label(), var_decl_label);
}

#[test]
fn class_lookup_among_many_classes() {
    let program = many_classes();
    let engine = QueryEngine::new(&program).ok().unwrap();
    let decl = engine.query_class_decl("C955").unwrap();
    let class = engine.class(decl).unwrap();
    assert_eq!(class.items.len(), 3);
    assert_eq!(class.name, "C955");
    assert_eq!(engine.query_class_decl("C1000"), Err(CompileError::UnresolvedClass));
}

#[test]
fn small_arithmetic_program_prints_44() {
    assert_eq!(output_of(&small_arithmetic()), vec!["44".to_string()]);
}

#[test]
fn factorial_with_a_conditional() {
    assert_eq!(output_of(&factorial_program()), vec!["1".to_string(), "120".to_string()]);
}

#[test]
fn variables_program_prints_all_its_lines() {
    let expected: Vec<String> = ["Part one", "========", "Hello there!", "42", "44", "46", "Factorial of 5", "120"]
        .iter()
        .map(|s| s.to_string())
        .collect();
    assert_eq!(output_of(&variables()), expected);
}

#[test]
fn lowered_conditional_has_the_patched_shape() {
    let lowered = lower(&factorial_program()).unwrap();
    // Method 0 prints, method 1 is Main, method 2 is Factorial.
    assert_eq!(lowered.program.methods.len(), 3);
    assert_eq!(lowered.program.entry_point, ir::MethodId(1));
    let body = &lowered.program.methods[2].body;
    assert_eq!(body.len(), 4);
    match &body[0] {
        ir::Statement::Branch(_, target) => assert_eq!(*target, 3),
        other => panic!("expected a branch, found {:?}", other),
    }
    assert!(matches!(body[1], ir::Statement::Return(Some(_))));
    match &body[2] {
        ir::Statement::Jump(target) => assert_eq!(*target, 4),
        other => panic!("expected a jump, found {:?}", other),
    }
    assert!(matches!(body[3], ir::Statement::Return(Some(_))));
    for method in &lowered.program.methods {
        for statement in &method.body {
            assert!(!matches!(statement, ir::Statement::Nop));
            match statement {
                ir::Statement::Branch(_, t) | ir::Statement::Jump(t) => assert!(*t <= method.body.len()),
                _ => {}
            }
        }
    }
}

#[test]
fn write_line_is_method_zero_and_reads_variable_zero() {
    let lowered = lower(&hello_world()).unwrap();
    let body = &lowered.program.methods[0].body;
    assert_eq!(body.len(), 1);
    match &body[0] {
        ir::Statement::Expression(ir::Expression::Intrinsic(i)) => match &**i {
            ir::Intrinsic::PrintLine(ir::Expression::VarRead(id)) => assert_eq!(*id, ir::VarId(0)),
            other => panic!("unexpected intrinsic {:?}", other),
        },
        other => panic!("unexpected statement {:?}", other),
    }
    match &lowered.program.methods[1].body[0] {
        ir::Statement::Expression(ir::Expression::MethodCall(call)) => {
            assert_eq!(call.method_id, ir::MethodId(0));
            assert_eq!(call.arguments.len(), 1);
        }
        other => panic!("unexpected statement {:?}", other),
    }
}

#[test]
fn variables_are_numbered_in_declaration_order() {
    let lowered = lower(&small_arithmetic()).unwrap();
    // Aux(x): x is 0, two is 1, sum is 2.
    let body = &lowered.program.methods[2].body;
    assert_eq!(body.len(), 5);
    assert!(matches!(body[0], ir::Statement::VarDecl));
    match &body[1] {
        ir::Statement::Assign(a) => assert_eq!(a.var_id, ir::VarId(1)),
        other => panic!("unexpected statement {:?}", other),
    }
    match &body[3] {
        ir::Statement::Assign(a) => {
            assert_eq!(a.var_id, ir::VarId(2));
            match &a.value {
                ir::Expression::Intrinsic(i) => match &**i {
                    ir::Intrinsic::IntOp(op, ir::Expression::VarRead(l), ir::Expression::VarRead(r)) => {
                        assert_eq!(*op, BinaryOperator::Add);
                        assert_eq!(*l, ir::VarId(0));
                        assert_eq!(*r, ir::VarId(1));
                    }
                    other => panic!("unexpected intrinsic {:?}", other),
                },
                other => panic!("unexpected value {:?}", other),
            }
        }
        other => panic!("unexpected statement {:?}", other),
    }
    match &body[4] {
        ir::Statement::Return(Some(ir::Expression::VarRead(id))) => assert_eq!(*id, ir::VarId(2)),
        other => panic!("unexpected statement {:?}", other),
    }
}

/// class Counter { int start; int Next(int by) { return by + 1; } Counter Me() { return this; } }
/// class Program { static void Main() { Counter c = new Counter(); ... } }
fn objects_program(b: &mut Builder, main_body: Vec<Statement>) -> Program {
    let start = b.field(Builder::int_ty(), "start");
    let label = b.field(Type::Custom("string".to_string()), "label");
    let by = b.param(Builder::int_ty(), "by");
    let by_use = b.var_use("by");
    let one = b.int_lit(1);
    let sum = b.binary_op(BinaryOperator::Add, by_use, one);
    let ret = b.return_(Some(sum));
    let next = b.method("Next", false, vec![by], Builder::int_ty(), vec![ret]);
    let this = b.this();
    let ret_this = b.return_(Some(this));
    let me = b.method("Me", false, Vec::new(), Type::Custom("Counter".to_string()), vec![ret_this]);
    let counter = b.class("Counter", vec![start, label, next, me]);
    let main = b.main(main_body);
    let program = b.class("Program", vec![main]);
    Program { items: vec![counter, program] }
}

#[test]
fn instance_methods_receive_this_as_variable_zero() {
    let mut b = Builder::new();
    let new = b.new_object("Counter");
    let decl = b.decl(Type::Custom("Counter".to_string()), "c", Some(new));
    let c = b.var_use("c");
    let forty = b.int_lit(40);
    let call = b.method_call_on(c, "Next", vec![forty]);
    let print_next = b.write_line(call);
    let c = b.var_use("c");
    let me = b.method_call_on(c, "Me", Vec::new());
    let print_me = b.write_line(me);
    let c = b.var_use("c");
    let field = b.field_access(c, "label");
    let print_field = b.write_line(field);
    let program = objects_program(&mut b, vec![decl, print_next, print_me, print_field]);

    let lowered = lower(&program).unwrap();
    // Next(by): this is 0, by is 1.
    match &lowered.program.methods[1].body[0] {
        ir::Statement::Return(Some(ir::Expression::Intrinsic(i))) => match &**i {
            ir::Intrinsic::IntOp(_, ir::Expression::VarRead(l), _) => assert_eq!(*l, ir::VarId(1)),
            other => panic!("unexpected intrinsic {:?}", other),
        },
        other => panic!("unexpected statement {:?}", other),
    }
    // Me(): returns variable 0.
    match &lowered.program.methods[2].body[0] {
        ir::Statement::Return(Some(ir::Expression::VarRead(id))) => assert_eq!(*id, ir::VarId::this()),
        other => panic!("unexpected statement {:?}", other),
    }
    // The call site puts the target first.
    match &lowered.program.methods[3].body[2] {
        ir::Statement::Expression(ir::Expression::MethodCall(print)) => match &print.arguments[0] {
            ir::Expression::MethodCall(call) => {
                assert_eq!(call.method_id, ir::MethodId(1));
                assert_eq!(call.arguments.len(), 2);
                assert!(matches!(call.arguments[0], ir::Expression::VarRead(ir::VarId(0))));
            }
            other => panic!("unexpected argument {:?}", other),
        },
        other => panic!("unexpected statement {:?}", other),
    }
    let class_label = match &program.items[0] {
        TopItem::ClassDecl(cd) => cd.label,
    };
    let info = &lowered.classes[&class_label.0];
    assert_eq!(info.name, "Counter");
    assert_eq!(info.field_names, vec!["start".to_string(), "label".to_string()]);

    let out = run(&lowered.program, lowered.classes).unwrap();
    assert_eq!(
        out,
        vec![
            "41".to_string(),
            "Counter { start: null, label: null }".to_string(),
            "null".to_string(),
        ]
    );
}

#[test]
fn both_type_inference_paths_agree() {
    let program = variables();
    let (types, type_map) = check(&program).ok().unwrap();
    let mut engine = QueryEngine::new(&program).ok().unwrap();
    let mut seen = 0;
    for (label, ty) in types.iter() {
        let on_demand = engine
            .query_expr_type(Label(*label).assert_as_expression())
            .unwrap()
            .unwrap();
        if *ty == type_map.any_ty() {
            assert_eq!(on_demand, engine.types().any_ty());
        } else {
            assert_eq!(type_map.get(*ty), engine.types().get(on_demand));
        }
        seen += 1;
    }
    assert!(seen > 20);
    // Class names used as call targets have no type on either path.
    let call_target = match &main_body(&program)[6] {
        Statement::VarDecl(vd) => match vd.expr.as_ref().unwrap() {
            Expression::MethodCall(mc) => mc.target.label(),
            _ => unreachable!(),
        },
        _ => unreachable!(),
    };
    assert_eq!(engine.query_expr_type(call_target), Ok(None));
    assert!(!types.contains_key(&call_target.as_label().0));
}

#[test]
fn equality_of_integers_is_a_boolean() {
    let mut b = Builder::new();
    let one = b.int_lit(1);
    let two = b.int_lit(2);
    let eq = b.binary_op(BinaryOperator::Eq, one, two);
    let label = eq.label();
    let print = b.write_line(eq);
    let program = program_with_main(&mut b, vec![print]);
    let mut engine = QueryEngine::new(&program).ok().unwrap();
    assert_eq!(engine.query_expr_type(label), Ok(Some(engine.types().bool_ty())));
    assert_eq!(output_of(&program), vec!["false".to_string()]);
}

#[test]
fn array_literals_are_lowered_and_printed() {
    let mut b = Builder::new();
    let one = b.int_lit(1);
    let minus = b.int_lit(-20);
    let array = b.literal(LiteralKind::Array(Builder::int_ty(), vec![one, minus]));
    let label = array.label();
    let print = b.write_line(array);
    let empty = b.literal(LiteralKind::Array(Builder::int_ty(), Vec::new()));
    let print_empty = b.write_line(empty);
    let null = b.literal(LiteralKind::Null);
    let print_null = b.write_line(null);
    let t = b.literal(LiteralKind::Bool(true));
    let print_true = b.write_line(t);
    let program = program_with_main(&mut b, vec![print, print_empty, print_null, print_true]);
    let mut engine = QueryEngine::new(&program).ok().unwrap();
    let ty = engine.query_expr_type(label).unwrap().unwrap();
    let int_ty = engine.types().int_ty();
    assert_eq!(engine.types().get(ty), Some(ondemand::type_map::Type::Array(int_ty)));
    assert_eq!(
        output_of(&program),
        vec!["[1, -20]".to_string(), "[]".to_string(), "null".to_string(), "true".to_string()]
    );
}

fn lowering_error(program: &Program) -> Option<CompileError> {
    lower(program).err()
}

#[test]
fn two_classes_of_one_name_are_rejected() {
    let mut b = Builder::new();
    let main = b.main(Vec::new());
    let first = b.class("Program", vec![main]);
    let second = b.class("Program", Vec::new());
    let program = Program { items: vec![first, second] };
    assert_eq!(QueryEngine::new(&program).err(), Some(CompileError::MultiClassDecl));
    assert_eq!(check(&program).err(), Some(CompileError::MultiClassDecl));
}

#[test]
fn two_entry_points_are_rejected() {
    let mut b = Builder::new();
    let main = b.main(Vec::new());
    let first = b.class("A", vec![main]);
    let main = b.main(Vec::new());
    let second = b.class("B", vec![main]);
    let program = Program { items: vec![first, second] };
    assert_eq!(QueryEngine::new(&program).err(), Some(CompileError::MultiEntryPoint));
}

#[test]
fn a_program_without_entry_point_is_rejected() {
    let mut b = Builder::new();
    let not_static = b.method("Main", false, Vec::new(), Type::Void, Vec::new());
    let other = b.method("Other", true, Vec::new(), Type::Void, Vec::new());
    let program = Program { items: vec![b.class("Program", vec![not_static, other])] };
    assert_eq!(QueryEngine::new(&program).err(), Some(CompileError::NoEntryPoint));
    assert_eq!(QueryEngine::new(&Program { items: Vec::new() }).err(), Some(CompileError::NoEntryPoint));
}

#[test]
fn a_variable_declared_twice_is_rejected() {
    let mut b = Builder::new();
    let one = b.int_lit(1);
    let first = b.decl_int("x", one);
    let two = b.int_lit(2);
    let second = b.decl_int("x", two);
    let program = program_with_main(&mut b, vec![first, second]);
    assert_eq!(QueryEngine::new(&program).err(), Some(CompileError::DoubleVarDecl));
}

#[test]
fn an_assignment_to_an_undeclared_variable_is_rejected() {
    let mut b = Builder::new();
    let one = b.int_lit(1);
    let assign = b.assign("x", one);
    let program = program_with_main(&mut b, vec![assign]);
    assert_eq!(QueryEngine::new(&program).err(), Some(CompileError::UnresolvedName));
}

#[test]
fn a_label_used_twice_is_rejected() {
    let mut b = Builder::new();
    let one = b.int_lit(1);
    let label = one.label().as_label();
    let again = Expression::Literal(Literal { label, kind: LiteralKind::Int(2) });
    let first = b.write_line(one);
    let second = b.write_line(again);
    let program = program_with_main(&mut b, vec![first, second]);
    assert_eq!(QueryEngine::new(&program).err(), Some(CompileError::DuplicateLabel));
}

#[test]
fn this_in_a_field_initializer_is_rejected() {
    let mut b = Builder::new();
    let this = b.this();
    let label = b.label();
    let field = ClassItem::FieldDecl(FieldDecl {
        label,
        name: "me".to_string(),
        ty: Type::Custom("Program".to_string()),
        assignment: Some(this),
    });
    let main = b.main(Vec::new());
    let program = Program { items: vec![b.class("Program", vec![field, main])] };
    assert_eq!(QueryEngine::new(&program).err(), Some(CompileError::ThisInStaticMethod));
}

#[test]
fn this_in_a_static_method_is_rejected_by_lowering() {
    let mut b = Builder::new();
    let this = b.this();
    let statement = Statement::Expression(this);
    let program = program_with_main(&mut b, vec![statement]);
    assert!(QueryEngine::new(&program).is_ok());
    assert_eq!(lowering_error(&program), Some(CompileError::ThisInStaticMethod));
}

#[test]
fn an_undeclared_class_is_rejected() {
    let mut b = Builder::new();
    let new = b.new_object("Missing");
    let statement = Statement::Expression(new);
    let program = program_with_main(&mut b, vec![statement]);
    assert_eq!(lowering_error(&program), Some(CompileError::UnresolvedClass));
    assert_eq!(check(&program).err(), Some(CompileError::UnresolvedClass));

    let mut b = Builder::new();
    let decl = b.decl(Type::Custom("Missing".to_string()), "m", None);
    let m = b.var_use("m");
    let print = b.write_line(m);
    let program = program_with_main(&mut b, vec![decl, print]);
    assert_eq!(lowering_error(&program), Some(CompileError::UnresolvedClass));
}

#[test]
fn mismatched_types_are_rejected() {
    // A string where an integer operand is needed.
    let mut b = Builder::new();
    let one = b.int_lit(1);
    let text = b.string("a");
    let sum = b.binary_op(BinaryOperator::Add, one, text);
    let statement = Statement::Expression(sum);
    let program = program_with_main(&mut b, vec![statement]);
    assert_eq!(lowering_error(&program), Some(CompileError::TypeMismatch));
    assert_eq!(check(&program).err(), Some(CompileError::TypeMismatch));

    // A string assigned to an integer variable.
    let mut b = Builder::new();
    let text = b.string("a");
    let decl = b.decl_int("x", text);
    let program = program_with_main(&mut b, vec![decl]);
    assert_eq!(lowering_error(&program), Some(CompileError::TypeMismatch));

    // A value returned from a void method.
    let mut b = Builder::new();
    let one = b.int_lit(1);
    let ret = b.return_(Some(one));
    let program = program_with_main(&mut b, vec![ret]);
    assert_eq!(lowering_error(&program), Some(CompileError::TypeMismatch));

    // A condition that is no boolean.
    let mut b = Builder::new();
    let one = b.int_lit(1);
    let ite = b.if_then_else(one, Vec::new(), Vec::new());
    let program = program_with_main(&mut b, vec![ite]);
    assert_eq!(lowering_error(&program), Some(CompileError::TypeMismatch));

    // An argument of the wrong type.
    let mut b = Builder::new();
    let text = b.string("a");
    let call = b.method_call("Program", "Aux", vec![text]);
    let statement = Statement::Expression(call);
    let main = b.main(vec![statement]);
    let aux = aux_method(&mut b);
    let program = Program { items: vec![b.class("Program", vec![main, aux])] };
    assert_eq!(lowering_error(&program), Some(CompileError::TypeMismatch));
}

#[test]
fn null_agrees_with_every_declared_type() {
    let mut b = Builder::new();
    let null = b.literal(LiteralKind::Null);
    let decl = b.decl_int("x", null);
    let x = b.var_use("x");
    let print = b.write_line(x);
    let program = program_with_main(&mut b, vec![decl, print]);
    assert_eq!(output_of(&program), vec!["null".to_string()]);
}

#[test]
fn a_wrong_number_of_arguments_is_rejected() {
    let mut b = Builder::new();
    let call = b.method_call("Program", "Aux", Vec::new());
    let statement = Statement::Expression(call);
    let main = b.main(vec![statement]);
    let aux = aux_method(&mut b);
    let program = Program { items: vec![b.class("Program", vec![main, aux])] };
    assert_eq!(lowering_error(&program), Some(CompileError::ArityMismatch));
    assert_eq!(check(&program).err(), Some(CompileError::ArityMismatch));
}

#[test]
fn a_field_of_something_that_is_no_object_is_rejected() {
    let mut b = Builder::new();
    let one = b.int_lit(1);
    let access = b.field_access(one, "f");
    let statement = Statement::Expression(access);
    let program = program_with_main(&mut b, vec![statement]);
    assert_eq!(lowering_error(&program), Some(CompileError::NonClassFieldTarget));
}

#[test]
fn an_unknown_member_is_rejected() {
    let mut b = Builder::new();
    let new = b.new_object("Counter");
    let access = b.field_access(new, "missing");
    let statement = Statement::Expression(access);
    let program = objects_program(&mut b, vec![statement]);
    assert_eq!(lowering_error(&program), Some(CompileError::UnresolvedName));

    let mut b = Builder::new();
    let call = b.method_call("Program", "Missing", Vec::new());
    let statement = Statement::Expression(call);
    let program = program_with_main(&mut b, vec![statement]);
    assert_eq!(lowering_error(&program), Some(CompileError::UnresolvedName));
}

#[test]
fn a_label_that_names_no_expression_has_no_type() {
    let program = hello_world();
    let mut engine = QueryEngine::new(&program).ok().unwrap();
    assert_eq!(
        engine.query_expr_type(Label(4_000_000).assert_as_expression()),
        Err(CompileError::UnknownNode)
    );
    let class_label = match &program.items[0] {
        TopItem::ClassDecl(cd) => cd.label,
    };
    assert_eq!(
        engine.query_expr_type(class_label.assert_as_expression()),
        Err(CompileError::UnknownNode)
    );
    assert_eq!(engine.query_is_static(class_label.assert_as_method_decl()), Err(CompileError::UnknownNode));
    let main = engine.entry_point();
    assert_eq!(main.name, "Main");
    assert_eq!(engine.query_is_static(main.label.assert_as_method_decl()), Ok(true));
    assert_eq!(
        engine.query_return_type(main.label.assert_as_method_decl()),
        Ok(engine.types().void_ty())
    );
    let params = engine.query_param_types(main.label.assert_as_method_decl()).unwrap();
    assert_eq!(params.len(), 1);
    let string_ty = engine.types().string_ty();
    assert_eq!(engine.types().get(params[0]), Some(ondemand::type_map::Type::Array(string_ty)));
}

#[test]
fn queries_about_members() {
    let mut b = Builder::new();
    let new = b.new_object("Counter");
    let decl = b.decl(Type::Custom("Counter".to_string()), "c", Some(new));
    let c = b.var_use("c");
    let access = b.field_access(c, "label");
    let access_label = access.label().as_label();
    let print = b.write_line(access);
    let c = b.var_use("c");
    let one = b.int_lit(1);
    let call = b.method_call_on(c, "Next", vec![one]);
    let call_label = call.label().as_label();
    let statement = Statement::Expression(call);
    let program = objects_program(&mut b, vec![decl, print, statement]);
    let (field_label, next_label) = match &program.items[0] {
        TopItem::ClassDecl(cd) => match (&cd.items[1], &cd.items[2]) {
            (ClassItem::FieldDecl(f), ClassItem::MethodDecl(m)) => (f.label, m.label),
            _ => unreachable!(),
        },
    };
    let mut engine = QueryEngine::new(&program).ok().unwrap();
    let field = engine.query_field(access_label.assert_as_var_use()).unwrap();
    assert_eq!(field.as_label(), field_label);
    assert_eq!(engine.query_var_type(field), Ok(engine.types().string_ty()));
    let method = engine.query_method_decl(call_label.assert_as_method_use()).unwrap();
    assert_eq!(method.as_label(), next_label);
    assert_eq!(engine.query_is_static(method), Ok(false));
    assert_eq!(engine.query_return_type(method), Ok(engine.types().int_ty()));
}

#[test]
fn division_by_zero_stops_the_run() {
    let mut b = Builder::new();
    let one = b.int_lit(1);
    let zero = b.int_lit(0);
    let div = b.binary_op(BinaryOperator::Div, one, zero);
    let print = b.write_line(div);
    let program = program_with_main(&mut b, vec![print]);
    let lowered = lower(&program).unwrap();
    assert_eq!(run(&lowered.program, lowered.classes), Err(RuntimeError::DivisionByZero));
}

#[test]
fn overflow_stops_the_run() {
    let mut b = Builder::new();
    let max = b.int_lit(i64::MAX);
    let one = b.int_lit(1);
    let sum = b.binary_op(BinaryOperator::Add, max, one);
    let print = b.write_line(sum);
    let program = program_with_main(&mut b, vec![print]);
    let lowered = lower(&program).unwrap();
    assert_eq!(run(&lowered.program, lowered.classes), Err(RuntimeError::Overflow));
}

#[test]
fn division_rounds_towards_zero() {
    let mut b = Builder::new();
    let minus_seven = b.int_lit(-7);
    let two = b.int_lit(2);
    let div = b.binary_op(BinaryOperator::Div, minus_seven, two);
    let print = b.write_line(div);
    let min = b.int_lit(i64::MIN);
    let print_min = b.write_line(min);
    let six = b.int_lit(6);
    let seven = b.int_lit(7);
    let product = b.binary_op(BinaryOperator::Mul, six, seven);
    let print_product = b.write_line(product);
    let program = program_with_main(&mut b, vec![print, print_min, print_product]);
    assert_eq!(
        output_of(&program),
        vec!["-3".to_string(), "-9223372036854775808".to_string(), "42".to_string()]
    );
}

#[test]
fn a_run_without_enough_fuel_is_given_up() {
    let lowered = lower(&factorial_program()).unwrap();
    assert_eq!(run_with_fuel(&lowered.program, lowered.classes, 10), Err(RuntimeError::OutOfFuel));
    let lowered = lower(&hello_world()).unwrap();
    assert_eq!(run_with_fuel(&lowered.program, lowered.classes, 0), Err(RuntimeError::OutOfFuel));
}

#[test]
fn runtime_faults_of_hand_written_code() {
    let print = |e: ir::Expression| {
        ir::Statement::Expression(ir::Expression::Intrinsic(Box::new(ir::Intrinsic::PrintLine(e))))
    };
    let run_body = |body: Vec<ir::Statement>| {
        let program = ir::Program { methods: vec![ir::Method { body }], entry_point: ir::MethodId(0) };
        run(&program, HashMap::new())
    };
    assert_eq!(run_body(vec![print(ir::Expression::VarRead(ir::VarId(0)))]), Err(RuntimeError::UnknownVariable));
    assert_eq!(
        run_body(vec![ir::Statement::Branch(ir::Expression::Literal(ir::Literal::Int(1)), 0)]),
        Err(RuntimeError::NotABoolean)
    );
    assert_eq!(
        run_body(vec![print(ir::Expression::FieldAccess(Box::new(ir::FieldAccess {
            target: ir::Expression::Literal(ir::Literal::Null),
            field_id: ir::FieldId(0),
        })))]),
        Err(RuntimeError::NotAnObject)
    );
    assert_eq!(
        run_body(vec![print(ir::Expression::MethodCall(ir::MethodCall {
            method_id: ir::MethodId(7),
            arguments: Vec::new(),
        }))]),
        Err(RuntimeError::UnknownMethod)
    );
    assert_eq!(
        run_body(vec![print(ir::Expression::NewObject(Label(3).assert_as_class_decl()))]),
        Err(RuntimeError::UnknownClass)
    );
    assert_eq!(
        run_body(vec![print(ir::Expression::Intrinsic(Box::new(ir::Intrinsic::IntOp(
            BinaryOperator::Add,
            ir::Expression::Literal(ir::Literal::Int(1)),
            ir::Expression::Literal(ir::Literal::Null),
        ))))]),
        Err(RuntimeError::NotAnInteger)
    );
    let entry_missing = ir::Program { methods: Vec::new(), entry_point: ir::MethodId(0) };
    assert_eq!(run(&entry_missing, HashMap::new()), Err(RuntimeError::UnknownMethod));
    // A jump past the end of the body ends the method.
    assert_eq!(
        run_body(vec![ir::Statement::Jump(2), print(ir::Expression::Literal(ir::Literal::Int(1)))]),
        Ok(Vec::new())
    );
    // A declared variable can be written and read.
    assert_eq!(
        run_body(vec![
            ir::Statement::VarDecl,
            ir::Statement::Assign(ir::Assign {
                var_id: ir::VarId(0),
                value: ir::Expression::Literal(ir::Literal::String("kept".to_string())),
            }),
            print(ir::Expression::VarRead(ir::VarId(0))),
        ]),
        Ok(vec!["kept".to_string()])
    );
}

#[test]
fn an_answer_is_the_same_when_asked_again() {
    let program = variables();
    let body = main_body(&program);
    let expr_label = match &body[6] {
        Statement::VarDecl(vd) => vd.expr.as_ref().unwrap().label(),
        _ => unreachable!(),
    };
    let mut engine = QueryEngine::new(&program).ok().unwrap();
    let first = engine.query_expr_type(expr_label);
    let again = engine.query_expr_type(expr_label);
    assert_eq!(first, Ok(Some(engine.types().int_ty())));
    assert_eq!(first, again);
    let method = engine.query_method_decl(expr_label.as_label().assert_as_method_use());
    assert_eq!(method, engine.query_method_decl(expr_label.as_label().assert_as_method_use()));
    assert_eq!(engine.query_is_static(method.unwrap()), Ok(true));
}

#[test]
fn the_tables_hold_every_node_under_its_label() {
    let program = variables();
    let engine = QueryEngine::new(&program).ok().unwrap();
    let class = match &program.items[0] {
        TopItem::ClassDecl(cd) => cd,
    };
    assert!(matches!(engine.node(class.label), Some(ondemand::node::Node::ClassDecl(_))));
    let named = engine.query_class_decl("Program").unwrap();
    assert_eq!(named.as_label(), class.label);
    assert_eq!(engine.class(named).unwrap().name, "Program");
    let mut seen = 0;
    for item in &class.items {
        let method = match item {
            ClassItem::MethodDecl(md) => md,
            _ => unreachable!(),
        };
        assert_eq!(engine.node(method.label).unwrap().label(), method.label);
        for param in &method.params {
            assert!(matches!(engine.node(param.label), Some(ondemand::node::Node::VarDecl(_))));
            assert_eq!(engine.query_var_decl(param.label).unwrap().as_label(), param.label);
        }
        for statement in &method.body {
            match statement {
                Statement::VarDecl(vd) => {
                    assert_eq!(engine.node(vd.label).unwrap().label(), vd.label);
                    let init = vd.expr.as_ref().unwrap().label().as_label();
                    assert_eq!(engine.node(init).unwrap().label(), init);
                    seen += 1;
                }
                Statement::Expression(e) => {
                    let label = e.label().as_label();
                    assert_eq!(engine.node(label).unwrap().label(), label);
                    seen += 1;
                }
                _ => {}
            }
        }
    }
    assert!(seen >= 15);
    assert!(engine.node(Label(1_000_000)).is_none());
}

#[test]
fn a_program_is_written_out_as_source_text() {
    let text = ondemand::pretty::program_to_string(&factorial_program());
    let expected = "\
class Program {
    public static void Main() {
        Console.WriteLine(Program.Factorial(0));
        Console.WriteLine(Program.Factorial(5));
    }
    public static int Factorial(int x) {
        if (0 == x) {
            return 1;
        }
        else {
            return x * Program.Factorial(x - 1);
        }
    }
}

";
    assert_eq!(text, expected);

    let mut b = Builder::new();
    let new = b.new_object("Counter");
    let decl = b.decl(Type::Custom("Counter".to_string()), "c", Some(new));
    let hello = b.string("hi");
    let one = b.int_lit(1);
    let array = b.literal(LiteralKind::Array(Builder::int_ty(), vec![one]));
    let call = b.method_call("Console", "WriteLine", vec![hello, array]);
    let statement = Statement::Expression(call);
    let this = b.this();
    let field = b.field_access(this, "start");
    let assign = b.assign("c", field);
    let ret = b.return_(None);
    let program = objects_program(&mut b, vec![decl, statement, assign, ret]);
    let text = ondemand::pretty::program_to_string(&program);
    let expected = "\
class Counter {
    public int start;
    public string label;
    public int Next(int by) {
        return by + 1;
    }
    public Counter Me() {
        return this;
    }
}

class Program {
    public static void Main() {
        Counter c = new Counter();
        Console.WriteLine(\"hi\", new int[] { 1 });
        c = this.start;
        return;
    }
}

";
    assert_eq!(text, expected);
}

#[test]
fn assignments_are_lowered_and_run() {
    let mut b = Builder::new();
    let one = b.int_lit(1);
    let decl = b.decl_int("x", one);
    let x = b.var_use("x");
    let two = b.int_lit(2);
    let sum = b.binary_op(BinaryOperator::Add, x, two);
    let assign = b.assign("x", sum);
    let x = b.var_use("x");
    let print = b.write_line(x);
    let t = b.literal(LiteralKind::Bool(false));
    let yes = b.string("yes");
    let no = b.string("no");
    let print_yes = b.write_line(yes);
    let print_no = b.write_line(no);
    let after = b.string("after");
    let print_after = b.write_line(after);
    let ite = b.if_then_else(t, vec![print_yes], vec![print_no]);
    let program = program_with_main(&mut b, vec![decl, assign, print, ite, print_after]);
    assert_eq!(output_of(&program), vec!["3".to_string(), "no".to_string(), "after".to_string()]);
}

#[test]
fn an_object_without_fields_is_printed_with_empty_braces() {
    let mut b = Builder::new();
    let new = b.new_object("Program");
    let print = b.write_line(new);
    let program = program_with_main(&mut b, vec![print]);
    assert_eq!(output_of(&program), vec!["Program { }".to_string()]);
}

#[test]
fn only_the_built_in_names_are_built_in_types() {
    // `String` is no built-in name: without a class of that name it names nothing.
    let mut b = Builder::new();
    let text = b.string("a");
    let decl = b.decl(Type::Custom("String".to_string()), "s", Some(text));
    let decl_label = match &decl {
        Statement::VarDecl(vd) => vd.label,
        _ => unreachable!(),
    };
    let program = program_with_main(&mut b, vec![decl]);
    let mut engine = QueryEngine::new(&program).ok().unwrap();
    assert_eq!(engine.query_var_type(decl_label.assert_as_var_decl()), Err(CompileError::UnresolvedClass));
    assert_eq!(lowering_error(&program), Some(CompileError::UnresolvedClass));

    // With a class of that name it names the class.
    let mut b = Builder::new();
    let decl = b.decl(Type::Custom("String".to_string()), "s", None);
    let decl_label = match &decl {
        Statement::VarDecl(vd) => vd.label,
        _ => unreachable!(),
    };
    let main = b.main(vec![decl]);
    let program_class = b.class("Program", vec![main]);
    let string_class = b.class("String", Vec::new());
    let class_label = match &string_class {
        TopItem::ClassDecl(cd) => cd.label,
    };
    let program = Program { items: vec![program_class, string_class] };
    let mut engine = QueryEngine::new(&program).ok().unwrap();
    let ty = engine.query_var_type(decl_label.assert_as_var_decl()).unwrap();
    assert_eq!(
        engine.types().get(ty),
        Some(ondemand::type_map::Type::Class(class_label.assert_as_class_decl()))
    );

    // The built-in names resolve to the built-in types and add nothing to the table.
    for (name, expected) in [("int", 0), ("string", 1), ("bool", 3), ("Console", 4)] {
        let mut b = Builder::new();
        let decl = b.decl(Type::Custom(name.to_string()), "v", None);
        let decl_label = match &decl {
            Statement::VarDecl(vd) => vd.label,
            _ => unreachable!(),
        };
        let program = program_with_main(&mut b, vec![decl]);
        let mut engine = QueryEngine::new(&program).ok().unwrap();
        let ty = engine.query_var_type(decl_label.assert_as_var_decl()).unwrap();
        assert_eq!(ty, ondemand::type_map::TypeId(expected));
        assert_eq!(engine.types().get(ondemand::type_map::TypeId(5)), None);
    }
    let program = hello_world();
    let mut engine = QueryEngine::new(&program).ok().unwrap();
    let main = engine.entry_point().label.assert_as_method_decl();
    assert_eq!(engine.query_return_type(main), Ok(engine.types().void_ty()));
    assert_eq!(engine.types().get(ondemand::type_map::TypeId(5)), None);
    // An array type adds its element type, if that is missing, and itself.
    let params = engine.query_param_types(main).unwrap();
    assert_eq!(params, vec![ondemand::type_map::TypeId(5)]);
    assert_eq!(engine.types().get(ondemand::type_map::TypeId(6)), None);
}
