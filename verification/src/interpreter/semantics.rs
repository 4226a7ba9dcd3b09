//! What running a program means: a stack machine, described on plain data.
//!
//! Every step of a method body and every call uses up one unit of fuel, so
//! that a run either ends or runs out of fuel.

use vstd::prelude::*;
use crate::ast::BinaryOperator;
use crate::interpreter::render::rendered;
use crate::interpreter::runtime::{Data, RuntimeError};
use crate::ir;
use crate::lowering::rules::ClassSummary;

verus! {

/// The state of the machine: the stack, the position on the stack at which
/// the frame of the running method starts, and the lines printed so far.
pub struct Machine {
    pub stack: Seq<Data>,
    pub sp: int,
    pub out: Seq<Seq<char>>,
}

/// What a statement asks the machine to do next.
pub enum Next {
    /// Go on with the statement that follows.
    Continue,
    /// Go on at the given position of the body.
    Jump(usize),
    /// Leave the method, with the given value if any.
    Return(Option<Data>),
}

/// What a run does not change: the program and what is known of its
/// classes.
pub struct World<'a> {
    pub program: &'a ir::Program,
    pub classes: Map<u32, ClassSummary>,
}

/// The result of an operation on two integers. Division rounds towards
/// zero.
#[verifier::opaque]
pub open spec fn int_op(op: BinaryOperator, a: i64, b: i64) -> Result<Data, RuntimeError> {
    match op {
        BinaryOperator::Add => match a.checked_add(b) {
            Some(x) => Ok(Data::Int(x)),
            None => Err(RuntimeError::Overflow),
        },
        BinaryOperator::Sub => match a.checked_sub(b) {
            Some(x) => Ok(Data::Int(x)),
            None => Err(RuntimeError::Overflow),
        },
        BinaryOperator::Mul => match a.checked_mul(b) {
            Some(x) => Ok(Data::Int(x)),
            None => Err(RuntimeError::Overflow),
        },
        BinaryOperator::Div => if b == 0 {
            Err(RuntimeError::DivisionByZero)
        } else {
            match a.checked_div(b) {
                Some(x) => Ok(Data::Int(x)),
                None => Err(RuntimeError::Overflow),
            }
        },
        BinaryOperator::Eq => Ok(Data::Bool(a == b)),
    }
}

/// The value of the variable `id` of the running method.
pub open spec fn variable_value(m: Machine, id: ir::VarId) -> Result<Data, RuntimeError> {
    if 0 <= m.sp && m.sp + id.0 < m.stack.len() {
        Ok(m.stack[m.sp + id.0])
    } else {
        Err(RuntimeError::UnknownVariable)
    }
}

/// The field `id` of the value `target`, which must be an object.
pub open spec fn field_value(target: Data, id: ir::FieldId) -> Result<Data, RuntimeError> {
    match target {
        Data::Object(_, fields) => if id.0 < fields.len() {
            Ok(fields[id.0 as int])
        } else {
            Err(RuntimeError::UnknownField)
        },
        _ => Err(RuntimeError::NotAnObject),
    }
}

/// A new object of the class labelled `class`: every field is null.
pub open spec fn new_object(w: World, class: crate::ast::Label) -> Result<Data, RuntimeError> {
    if w.classes.contains_key(class.0) {
        Ok(
            Data::Object(
                class,
                Seq::new(w.classes[class.0].field_names.len(), |i: int| Data::Null),
            ),
        )
    } else {
        Err(RuntimeError::UnknownClass)
    }
}

/// The value of the expression `e` and the machine after it is evaluated.
pub open spec fn eval(w: World, m: Machine, fuel: nat, e: &ir::Expression) -> Result<
    (Data, Machine),
    RuntimeError,
>
    decreases fuel, 1int, e,
{
    match *e {
        ir::Expression::FieldAccess(fa) => match eval(w, m, fuel, &fa.target) {
            Ok((target, m1)) => match field_value(target, fa.field_id) {
                Ok(d) => Ok((d, m1)),
                Err(err) => Err(err),
            },
            Err(err) => Err(err),
        },
        ir::Expression::Literal(l) => match l {
            ir::Literal::Int(i) => Ok((Data::Int(i), m)),
            ir::Literal::String(s) => Ok((Data::Str(s@), m)),
            ir::Literal::Bool(b) => Ok((Data::Bool(b), m)),
            ir::Literal::Null => Ok((Data::Null, m)),
            ir::Literal::Array(es) => match eval_all(w, m, fuel, es@, es@.len() as int) {
                Ok((ds, m1)) => Ok((Data::Array(ds), m1)),
                Err(err) => Err(err),
            },
        },
        ir::Expression::Intrinsic(intrinsic) => match *intrinsic {
            ir::Intrinsic::IntOp(op, left, right) => match eval(w, m, fuel, &left) {
                Ok((d1, m1)) => match eval(w, m1, fuel, &right) {
                    Ok((d2, m2)) => match (d1, d2) {
                        (Data::Int(a), Data::Int(b)) => match int_op(op, a, b) {
                            Ok(d) => Ok((d, m2)),
                            Err(err) => Err(err),
                        },
                        _ => Err(RuntimeError::NotAnInteger),
                    },
                    Err(err) => Err(err),
                },
                Err(err) => Err(err),
            },
            ir::Intrinsic::PrintLine(left) => match eval(w, m, fuel, &left) {
                Ok((d, m1)) => match rendered(w.classes, d) {
                    Some(text) => Ok((Data::Null, Machine { out: m1.out.push(text), ..m1 })),
                    None => Err(RuntimeError::UnknownClass),
                },
                Err(err) => Err(err),
            },
        },
        ir::Expression::MethodCall(mc) => if mc.method_id.0 < w.program.methods@.len() {
            match eval_all(w, m, fuel, mc.arguments@, mc.arguments@.len() as int) {
                Ok((args, m1)) => match call(
                    w,
                    m1,
                    fuel,
                    &w.program.methods@[mc.method_id.0 as int],
                    args,
                ) {
                    Ok((ret, m2)) => Ok(
                        (
                            match ret {
                                Some(d) => d,
                                None => Data::Null,
                            },
                            m2,
                        ),
                    ),
                    Err(err) => Err(err),
                },
                Err(err) => Err(err),
            }
        } else {
            Err(RuntimeError::UnknownMethod)
        },
        ir::Expression::VarRead(id) => match variable_value(m, id) {
            Ok(d) => Ok((d, m)),
            Err(err) => Err(err),
        },
        ir::Expression::NewObject(class) => match new_object(w, class.0) {
            Ok(d) => Ok((d, m)),
            Err(err) => Err(err),
        },
    }
}

/// The values of the first `upto` of `es`, evaluated in order, and the
/// machine after that.
pub open spec fn eval_all(w: World, m: Machine, fuel: nat, es: Seq<ir::Expression>, upto: int) -> Result<
    (Seq<Data>, Machine),
    RuntimeError,
>
    decreases fuel, 1int, es, upto,
{
    if 0 < upto <= es.len() {
        match eval_all(w, m, fuel, es, upto - 1) {
            Ok((ds, m1)) => match eval(w, m1, fuel, &es[upto - 1]) {
                Ok((d, m2)) => Ok((ds.push(d), m2)),
                Err(err) => Err(err),
            },
            Err(err) => Err(err),
        }
    } else {
        Ok((Seq::empty(), m))
    }
}

/// What a call of `method` with the arguments `args` returns, and the
/// machine after it: the arguments are put on the stack and make the start
/// of a new frame; when the body is done the frame is taken off again.
pub open spec fn call(w: World, m: Machine, fuel: nat, method: &ir::Method, args: Seq<Data>) -> Result<
    (Option<Data>, Machine),
    RuntimeError,
>
    decreases fuel, 0int,
{
    if fuel == 0 {
        Err(RuntimeError::OutOfFuel)
    } else {
        match run(
            w,
            Machine { stack: m.stack + args, sp: m.stack.len() as int, out: m.out },
            (fuel - 1) as nat,
            method.body@,
            0,
        ) {
            Ok((ret, m1)) => Ok(
                (
                    ret,
                    Machine {
                        stack: if 0 <= m1.sp <= m1.stack.len() {
                            m1.stack.take(m1.sp)
                        } else {
                            m1.stack
                        },
                        sp: m.sp,
                        out: m1.out,
                    },
                ),
            ),
            Err(err) => Err(err),
        }
    }
}

/// What the body `body` returns when it is run from position `ip` on, and
/// the machine after it. A body that is left at its end returns nothing.
pub open spec fn run(w: World, m: Machine, fuel: nat, body: Seq<ir::Statement>, ip: int) -> Result<
    (Option<Data>, Machine),
    RuntimeError,
>
    decreases fuel, 3int,
{
    if !(0 <= ip < body.len()) {
        Ok((None, m))
    } else if fuel == 0 {
        Err(RuntimeError::OutOfFuel)
    } else {
        match step(w, m, (fuel - 1) as nat, &body[ip]) {
            Ok((next, m1)) => match next {
                Next::Continue => run(w, m1, (fuel - 1) as nat, body, ip + 1),
                Next::Jump(target) => run(w, m1, (fuel - 1) as nat, body, target as int),
                Next::Return(ret) => Ok((ret, m1)),
            },
            Err(err) => Err(err),
        }
    }
}

/// The machine after `d` is put into the variable `id` of the running
/// frame.
pub open spec fn stored(m: Machine, id: ir::VarId, d: Data) -> Result<Machine, RuntimeError> {
    if 0 <= m.sp && m.sp + id.0 < m.stack.len() {
        Ok(Machine { stack: m.stack.update(m.sp + id.0, d), ..m })
    } else {
        Err(RuntimeError::UnknownVariable)
    }
}

/// What a branch on the value `d` to the position `target` asks for.
pub open spec fn branched(d: Data, target: usize) -> Result<Next, RuntimeError> {
    match d {
        Data::Bool(true) => Ok(Next::Jump(target)),
        Data::Bool(false) => Ok(Next::Continue),
        _ => Err(RuntimeError::NotABoolean),
    }
}

/// What the statement `s` asks for, and the machine after it.
#[verifier::opaque]
pub open spec fn step(w: World, m: Machine, fuel: nat, s: &ir::Statement) -> Result<
    (Next, Machine),
    RuntimeError,
>
    decreases fuel, 2int,
{
    match *s {
        ir::Statement::Assign(assign) => match eval(w, m, fuel, &assign.value) {
            Ok((d, m1)) => match stored(m1, assign.var_id, d) {
                Ok(m2) => Ok((Next::Continue, m2)),
                Err(err) => Err(err),
            },
            Err(err) => Err(err),
        },
        ir::Statement::Expression(e) => match eval(w, m, fuel, &e) {
            Ok((_, m1)) => Ok((Next::Continue, m1)),
            Err(err) => Err(err),
        },
        ir::Statement::Return(value) => match value {
            Some(e) => match eval(w, m, fuel, &e) {
                Ok((d, m1)) => Ok((Next::Return(Some(d)), m1)),
                Err(err) => Err(err),
            },
            None => Ok((Next::Return(None), m)),
        },
        ir::Statement::VarDecl => Ok(
            (Next::Continue, Machine { stack: m.stack.push(Data::Int(i64::MAX)), ..m }),
        ),
        ir::Statement::Branch(condition, target) => match eval(w, m, fuel, &condition) {
            Ok((d, m1)) => match branched(d, target) {
                Ok(next) => Ok((next, m1)),
                Err(err) => Err(err),
            },
            Err(err) => Err(err),
        },
        ir::Statement::Jump(target) => Ok((Next::Jump(target), m)),
        ir::Statement::Nop => Ok((Next::Continue, m)),
    }
}

/// What an assignment asks for: the value is computed, then stored.
pub proof fn lemma_step_assign(w: World, m: Machine, fuel: nat, assign: ir::Assign)
    ensures
        step(w, m, fuel, &ir::Statement::Assign(assign)) == (match eval(
            w,
            m,
            fuel,
            &assign.value,
        ) {
            Ok((d, m1)) => match stored(m1, assign.var_id, d) {
                Ok(m2) => Ok::<(Next, Machine), RuntimeError>((Next::Continue, m2)),
                Err(err) => Err::<(Next, Machine), RuntimeError>(err),
            },
            Err(err) => Err::<(Next, Machine), RuntimeError>(err),
        }),
{
    reveal(step);
}

/// What an expression used as a statement asks for: it is evaluated and
/// its value dropped.
pub proof fn lemma_step_expression(w: World, m: Machine, fuel: nat, e: ir::Expression)
    ensures
        step(w, m, fuel, &ir::Statement::Expression(e)) == (match eval(w, m, fuel, &e) {
            Ok((_, m1)) => Ok::<(Next, Machine), RuntimeError>((Next::Continue, m1)),
            Err(err) => Err::<(Next, Machine), RuntimeError>(err),
        }),
{
    reveal(step);
}

/// What a return asks for.
pub proof fn lemma_step_return(w: World, m: Machine, fuel: nat, value: Option<ir::Expression>)
    ensures
        step(w, m, fuel, &ir::Statement::Return(value)) == (match value {
            Some(e) => match eval(w, m, fuel, &e) {
                Ok((d, m1)) => Ok::<(Next, Machine), RuntimeError>((Next::Return(Some(d)), m1)),
                Err(err) => Err::<(Next, Machine), RuntimeError>(err),
            },
            None => Ok::<(Next, Machine), RuntimeError>((Next::Return(None), m)),
        }),
{
    reveal(step);
}

/// What a branch asks for.
pub proof fn lemma_step_branch(
    w: World,
    m: Machine,
    fuel: nat,
    condition: ir::Expression,
    target: usize,
)
    ensures
        step(w, m, fuel, &ir::Statement::Branch(condition, target)) == (match eval(
            w,
            m,
            fuel,
            &condition,
        ) {
            Ok((d, m1)) => match branched(d, target) {
                Ok(next) => Ok::<(Next, Machine), RuntimeError>((next, m1)),
                Err(err) => Err::<(Next, Machine), RuntimeError>(err),
            },
            Err(err) => Err::<(Next, Machine), RuntimeError>(err),
        }),
{
    reveal(step);
}

/// What a declaration asks for: the next slot of the frame is taken.
pub proof fn lemma_step_var_decl(w: World, m: Machine, fuel: nat)
    ensures
        step(w, m, fuel, &ir::Statement::VarDecl) == Ok::<(Next, Machine), RuntimeError>(
            (Next::Continue, Machine { stack: m.stack.push(Data::Int(i64::MAX)), ..m }),
        ),
{
    reveal(step);
}

/// What a jump asks for.
pub proof fn lemma_step_jump(w: World, m: Machine, fuel: nat, target: usize)
    ensures
        step(w, m, fuel, &ir::Statement::Jump(target)) == Ok::<(Next, Machine), RuntimeError>(
            (Next::Jump(target), m),
        ),
{
    reveal(step);
}

/// What a placeholder asks for: nothing.
pub proof fn lemma_step_nop(w: World, m: Machine, fuel: nat)
    ensures
        step(w, m, fuel, &ir::Statement::Nop) == Ok::<(Next, Machine), RuntimeError>(
            (Next::Continue, m),
        ),
{
    reveal(step);
}

/// The machine after a call of the entry point without arguments.
pub open spec fn entry_run(w: World, m: Machine, fuel: nat) -> Result<Machine, RuntimeError> {
    if w.program.entry_point.0 < w.program.methods@.len() {
        match call(
            w,
            m,
            fuel,
            &w.program.methods@[w.program.entry_point.0 as int],
            Seq::empty(),
        ) {
            Ok((_, after)) => Ok(after),
            Err(err) => Err(err),
        }
    } else {
        Err(RuntimeError::UnknownMethod)
    }
}

/// What a run of the program gives: the lines that a call of the entry
/// point without arguments prints, on a machine that starts empty.
pub open spec fn program_output(w: World, fuel: nat) -> Result<Seq<Seq<char>>, RuntimeError> {
    match entry_run(w, Machine { stack: Seq::empty(), sp: 0, out: Seq::empty() }, fuel) {
        Ok(m) => Ok(m.out),
        Err(err) => Err(err),
    }
}

} // verus!
