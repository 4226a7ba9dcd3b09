//! An interpreter for the intermediate representation.
//!
//! The interpreter is a stack machine. What it prints is collected line by
//! line and handed back when the run is over.

pub mod render;
pub mod runtime;
pub mod semantics;

use std::collections::HashMap;
use vstd::prelude::*;
use crate::ast::BinaryOperator;
use crate::ir;
use crate::lowering::{names_of, summaries, ClassInfo};
use self::render::{render_value, rendered};
use self::runtime::{
    copy_value, data_of, datas_of, lemma_data_of, lemma_datas_add, lemma_datas_push,
    lemma_datas_take, lemma_datas_update, Data, Object, RuntimeError, Value,
};
use self::semantics::{
    branched, call, entry_run, eval, eval_all, int_op, lemma_step_assign, lemma_step_branch,
    lemma_step_expression, lemma_step_jump, lemma_step_nop, lemma_step_return,
    lemma_step_var_decl, program_output,
    run as run_body, step, stored, variable_value, Machine, Next, World,
};

verus! {

broadcast use vstd::std_specs::hash::group_hash_axioms;

/// What a statement asks the interpreter to do next.
enum NextAction {
    Continue,
    Jump(usize),
    Return(Option<Value>),
}

/// The request that the action `a` stands for.
spec fn next_of(a: NextAction) -> Next {
    match a {
        NextAction::Continue => Next::Continue,
        NextAction::Jump(t) => Next::Jump(t),
        NextAction::Return(v) => Next::Return(returned_data(v)),
    }
}

/// The data of the value `v`, if there is one.
spec fn returned_data(v: Option<Value>) -> Option<Data> {
    match v {
        Some(x) => Some(data_of(x)),
        None => None,
    }
}

/// The stack machine.
pub struct Interpreter<'a> {
    pub classes: HashMap<u32, ClassInfo>,
    pub stack: Vec<Value>,
    pub stack_ptr: usize,
    pub program: &'a ir::Program,
    /// The lines printed so far.
    pub output: Vec<String>,
}

/// Once some arguments cannot be evaluated, no longer list of them can.
proof fn lemma_eval_all_fails(
    w: World,
    m: Machine,
    fuel: nat,
    es: Seq<ir::Expression>,
    upto: int,
    more: int,
)
    requires
        0 < upto <= more <= es.len(),
        eval_all(w, m, fuel, es, upto) is Err,
    ensures
        eval_all(w, m, fuel, es, more) == eval_all(w, m, fuel, es, upto),
    decreases more - upto,
{
    if upto < more {
        lemma_eval_all_fails(w, m, fuel, es, upto, more - 1);
    }
}

impl<'a> Interpreter<'a> {
    /// What the run does not change.
    pub open spec fn world(&self) -> World<'a> {
        World { program: self.program, classes: summaries(self.classes@) }
    }

    /// The state of the machine, as plain data.
    pub open spec fn machine(&self) -> Machine {
        Machine {
            stack: datas_of(self.stack@),
            sp: self.stack_ptr as int,
            out: names_of(self.output@),
        }
    }

    /// Whether this interpreter works on the same program and classes as
    /// `before`.
    pub open spec fn same_world(&self, before: Interpreter<'a>) -> bool {
        self.program == before.program && self.classes == before.classes
    }

    /// Runs the entry point, with `fuel` units of fuel.
    pub fn run(&mut self, fuel: u64) -> (r: Result<(), RuntimeError>)
        ensures
            final(self).same_world(*old(self)),
            match entry_run(old(self).world(), old(self).machine(), fuel as nat) {
                Ok(after) => r is Ok && final(self).machine() == after,
                Err(err) => r matches Err(e) && e == err,
            },
    {
        let program: &'a ir::Program = self.program;
        let ep: usize = program.entry_point.0;
        if ep >= program.methods.len() {
            return Err(RuntimeError::UnknownMethod);
        }
        let method: &'a ir::Method = &program.methods[ep];
        let args: Vec<Value> = Vec::new();
        assert(datas_of(args@) =~= Seq::<Data>::empty());
        match self.run_method(method, args, fuel) {
            Ok(_) => Ok(()),
            Err(e) => Err(e),
        }
    }

    /// Calls the method `m` with the arguments `args`.
    fn run_method(&mut self, m: &'a ir::Method, args: Vec<Value>, fuel: u64) -> (r: Result<
        Option<Value>,
        RuntimeError,
    >)
        ensures
            final(self).same_world(*old(self)),
            match call(old(self).world(), old(self).machine(), fuel as nat, m, datas_of(args@)) {
                Ok((ret, after)) => r matches Ok(v) && returned_data(v) == ret && final(self).machine()
                    == after,
                Err(err) => r matches Err(e) && e == err,
            },
        decreases fuel, 0int,
    {
        if fuel == 0 {
            return Err(RuntimeError::OutOfFuel);
        }
        let sp: usize = self.stack_ptr;
        self.enter_frame(args);
        let ret = self.run_statements(m, fuel - 1)?;
        self.leave_frame(sp);
        Ok(ret)
    }

    /// Puts the arguments on the stack; they make the start of a new frame.
    fn enter_frame(&mut self, args: Vec<Value>)
        ensures
            final(self).same_world(*old(self)),
            final(self).machine() == (Machine {
                stack: old(self).machine().stack + datas_of(args@),
                sp: old(self).machine().stack.len() as int,
                out: old(self).machine().out,
            }),
    {
        self.stack_ptr = self.stack.len();
        let mut args = args;
        let ghost given = args@;
        self.stack.append(&mut args);
        proof {
            lemma_datas_add(old(self).stack@, given);
        }
    }

    /// Takes the running frame off the stack and makes the frame that
    /// starts at `sp` the running one.
    fn leave_frame(&mut self, sp: usize)
        ensures
            final(self).same_world(*old(self)),
            final(self).machine() == (Machine {
                stack: if 0 <= old(self).machine().sp <= old(self).machine().stack.len() {
                    old(self).machine().stack.take(old(self).machine().sp)
                } else {
                    old(self).machine().stack
                },
                sp: sp as int,
                out: old(self).machine().out,
            }),
    {
        self.stack.truncate(self.stack_ptr);
        self.stack_ptr = sp;
        proof {
            if old(self).stack_ptr <= old(self).stack@.len() {
                lemma_datas_take(old(self).stack@, old(self).stack_ptr as int);
            }
        }
    }

    /// Runs the body of the method `m` from its first statement on.
    fn run_statements(&mut self, m: &'a ir::Method, fuel: u64) -> (r: Result<
        Option<Value>,
        RuntimeError,
    >)
        ensures
            final(self).same_world(*old(self)),
            match run_body(old(self).world(), old(self).machine(), fuel as nat, m.body@, 0) {
                Ok((ret, after)) => r matches Ok(v) && returned_data(v) == ret && final(self).machine()
                    == after,
                Err(err) => r matches Err(e) && e == err,
            },
        decreases fuel, 4int,
    {
        let ghost w = self.world();
        let ghost m0 = self.machine();
        let mut left: u64 = fuel;
        let mut instr: usize = 0;
        while instr < m.body.len()
            invariant
                self.same_world(*old(self)),
                w == self.world(),
                w == old(self).world(),
                m0 == old(self).machine(),
                left <= fuel,
                run_body(w, self.machine(), left as nat, m.body@, instr as int) == run_body(
                    w,
                    m0,
                    fuel as nat,
                    m.body@,
                    0,
                ),
            decreases left,
        {
            if left == 0 {
                return Err(RuntimeError::OutOfFuel);
            }
            left = left - 1;
            match self.run_statement(&m.body[instr], left)? {
                NextAction::Continue => {
                    instr = instr + 1;
                },
                NextAction::Jump(new_instr) => {
                    instr = new_instr;
                },
                NextAction::Return(val) => {
                    return Ok(val);
                },
            }
        }
        Ok(None)
    }

    /// Puts `value` into the variable `var_id` of the running frame.
    fn store(&mut self, var_id: ir::VarId, value: Value) -> (r: Result<(), RuntimeError>)
        ensures
            final(self).same_world(*old(self)),
            match stored(old(self).machine(), var_id, data_of(value)) {
                Ok(after) => r is Ok && final(self).machine() == after,
                Err(err) => r matches Err(e) && e == err,
            },
    {
        if var_id.0 >= self.stack.len() - self.stack_ptr_within() {
            return Err(RuntimeError::UnknownVariable);
        }
        let addr: usize = self.stack_ptr + var_id.0;
        self.stack.set(addr, value);
        proof {
            lemma_datas_update(old(self).stack@, addr as int, value);
        }
        Ok(())
    }

    /// The value of the variable `var_id` of the running frame.
    fn load(&self, var_id: ir::VarId) -> (r: Result<Value, RuntimeError>)
        ensures
            match variable_value(self.machine(), var_id) {
                Ok(d) => r matches Ok(v) && data_of(v) == d,
                Err(err) => r matches Err(e) && e == err,
            },
    {
        if var_id.0 >= self.stack.len() - self.stack_ptr_within() {
            return Err(RuntimeError::UnknownVariable);
        }
        let addr: usize = self.stack_ptr + var_id.0;
        Ok(copy_value(&self.stack[addr]))
    }

    /// Takes the next slot of the running frame.
    fn reserve(&mut self)
        ensures
            final(self).same_world(*old(self)),
            final(self).machine() == (Machine {
                stack: old(self).machine().stack.push(Data::Int(i64::MAX)),
                ..old(self).machine()
            }),
    {
        self.stack.push(Value::Int(i64::MAX));
        proof {
            lemma_data_of(Value::Int(i64::MAX));
            lemma_datas_push(old(self).stack@, Value::Int(i64::MAX));
        }
    }

    /// Runs an assignment.
    fn run_assign(&mut self, assign: &'a ir::Assign, fuel: u64) -> (r: Result<
        NextAction,
        RuntimeError,
    >)
        ensures
            final(self).same_world(*old(self)),
            match step(
                old(self).world(),
                old(self).machine(),
                fuel as nat,
                &ir::Statement::Assign(*assign),
            ) {
                Ok((next, after)) => r matches Ok(a) && next_of(a) == next && final(self).machine()
                    == after,
                Err(err) => r matches Err(e) && e == err,
            },
        decreases fuel, 2int,
    {
        proof {
            lemma_step_assign(self.world(), self.machine(), fuel as nat, *assign);
        }
        let value = self.run_expression(&assign.value, fuel)?;
        self.store(assign.var_id, value)?;
        Ok(NextAction::Continue)
    }

    /// Runs a return.
    fn run_return(&mut self, val: &'a Option<ir::Expression>, fuel: u64) -> (r: Result<
        NextAction,
        RuntimeError,
    >)
        ensures
            final(self).same_world(*old(self)),
            match step(
                old(self).world(),
                old(self).machine(),
                fuel as nat,
                &ir::Statement::Return(*val),
            ) {
                Ok((next, after)) => r matches Ok(a) && next_of(a) == next && final(self).machine()
                    == after,
                Err(err) => r matches Err(e) && e == err,
            },
        decreases fuel, 2int,
    {
        proof {
            lemma_step_return(self.world(), self.machine(), fuel as nat, *val);
        }
        match val {
            Some(e) => {
                let v = self.run_expression(e, fuel)?;
                Ok(NextAction::Return(Some(v)))
            },
            None => Ok(NextAction::Return(None)),
        }
    }

    /// Runs a branch.
    fn run_branch(&mut self, condition: &'a ir::Expression, target: usize, fuel: u64) -> (r: Result<
        NextAction,
        RuntimeError,
    >)
        ensures
            final(self).same_world(*old(self)),
            match step(
                old(self).world(),
                old(self).machine(),
                fuel as nat,
                &ir::Statement::Branch(*condition, target),
            ) {
                Ok((next, after)) => r matches Ok(a) && next_of(a) == next && final(self).machine()
                    == after,
                Err(err) => r matches Err(e) && e == err,
            },
        decreases fuel, 2int,
    {
        proof {
            lemma_step_branch(self.world(), self.machine(), fuel as nat, *condition, target);
        }
        let value = self.run_expression(condition, fuel)?;
        branch_on(&value, target)
    }

    /// Runs one statement and says how to go on.
    fn run_statement(&mut self, s: &'a ir::Statement, fuel: u64) -> (r: Result<
        NextAction,
        RuntimeError,
    >)
        ensures
            final(self).same_world(*old(self)),
            match step(old(self).world(), old(self).machine(), fuel as nat, s) {
                Ok((next, after)) => r matches Ok(a) && next_of(a) == next && final(self).machine()
                    == after,
                Err(err) => r matches Err(e) && e == err,
            },
        decreases fuel, 3int,
    {
        match s {
            ir::Statement::Assign(assign) => self.run_assign(assign, fuel),
            ir::Statement::Expression(expr) => {
                proof {
                    lemma_step_expression(self.world(), self.machine(), fuel as nat, *expr);
                }
                self.run_expression(expr, fuel)?;
                Ok(NextAction::Continue)
            },
            ir::Statement::Return(val) => self.run_return(val, fuel),
            ir::Statement::VarDecl => {
                proof {
                    lemma_step_var_decl(self.world(), self.machine(), fuel as nat);
                }
                self.reserve();
                Ok(NextAction::Continue)
            },
            ir::Statement::Branch(expr, i) => self.run_branch(expr, *i, fuel),
            ir::Statement::Jump(i) => {
                proof {
                    lemma_step_jump(self.world(), self.machine(), fuel as nat, *i);
                }
                Ok(NextAction::Jump(*i))
            },
            ir::Statement::Nop => {
                proof {
                    lemma_step_nop(self.world(), self.machine(), fuel as nat);
                }
                Ok(NextAction::Continue)
            },
        }
    }

    /// The start of the running frame, or the height of the stack where
    /// the start lies above it.
    fn stack_ptr_within(&self) -> (r: usize)
        ensures
            r <= self.stack@.len(),
            self.stack_ptr <= self.stack@.len() ==> r == self.stack_ptr,
            self.stack_ptr > self.stack@.len() ==> r == self.stack@.len(),
    {
        if self.stack_ptr <= self.stack.len() {
            self.stack_ptr
        } else {
            self.stack.len()
        }
    }

    /// Evaluates the expressions `exprs` in order.
    fn run_arguments(&mut self, exprs: &'a Vec<ir::Expression>, fuel: u64) -> (r: Result<
        Vec<Value>,
        RuntimeError,
    >)
        ensures
            final(self).same_world(*old(self)),
            match eval_all(
                old(self).world(),
                old(self).machine(),
                fuel as nat,
                exprs@,
                exprs@.len() as int,
            ) {
                Ok((ds, after)) => r matches Ok(vs) && datas_of(vs@) == ds && final(self).machine()
                    == after,
                Err(err) => r matches Err(e) && e == err,
            },
        decreases fuel, 1int, exprs, 0int,
    {
        let ghost w = self.world();
        let ghost m0 = self.machine();
        let mut values: Vec<Value> = Vec::new();
        assert(datas_of(values@) =~= Seq::<Data>::empty());
        let mut i: usize = 0;
        while i < exprs.len()
            invariant
                i <= exprs.len(),
                self.same_world(*old(self)),
                w == self.world(),
                m0 == old(self).machine(),
                eval_all(w, m0, fuel as nat, exprs@, i as int) == Ok::<
                    (Seq<Data>, Machine),
                    RuntimeError,
                >((datas_of(values@), self.machine())),
            decreases exprs.len() - i,
        {
            let ghost before = values@;
            match self.run_expression(&exprs[i], fuel) {
                Ok(v) => {
                    values.push(v);
                    proof {
                        assert(datas_of(values@) =~= datas_of(before).push(data_of(v)));
                    }
                },
                Err(e) => {
                    proof {
                        lemma_eval_all_fails(
                            w,
                            m0,
                            fuel as nat,
                            exprs@,
                            i as int + 1,
                            exprs@.len() as int,
                        );
                    }
                    return Err(e);
                },
            }
            i = i + 1;
        }
        Ok(values)
    }

    /// Evaluates the expression `e`.
    fn run_expression(&mut self, e: &'a ir::Expression, fuel: u64) -> (r: Result<
        Value,
        RuntimeError,
    >)
        ensures
            final(self).same_world(*old(self)),
            match eval(old(self).world(), old(self).machine(), fuel as nat, e) {
                Ok((d, after)) => r matches Ok(v) && data_of(v) == d && final(self).machine()
                    == after,
                Err(err) => r matches Err(e) && e == err,
            },
        decreases fuel, 1int, e, 1int,
    {
        match e {
            ir::Expression::FieldAccess(fa) => {
                let target = self.run_expression(&fa.target, fuel)?;
                proof {
                    lemma_data_of(target);
                }
                match &target {
                    Value::Object(obj) => {
                        if fa.field_id.0 < obj.fields.len() {
                            Ok(copy_value(&obj.fields[fa.field_id.0]))
                        } else {
                            Err(RuntimeError::UnknownField)
                        }
                    },
                    _ => Err(RuntimeError::NotAnObject),
                }
            },
            ir::Expression::Literal(l) => self.run_literal(l, fuel),
            ir::Expression::Intrinsic(i) => self.run_intrinsic(i, fuel),
            ir::Expression::MethodCall(mc) => {
                let program: &'a ir::Program = self.program;
                if mc.method_id.0 >= program.methods.len() {
                    return Err(RuntimeError::UnknownMethod);
                }
                let method: &'a ir::Method = &program.methods[mc.method_id.0];
                let args = self.run_arguments(&mc.arguments, fuel)?;
                // A method that returns nothing gives null.
                proof {
                    lemma_data_of(Value::Null);
                }
                match self.run_method(method, args, fuel)? {
                    Some(v) => Ok(v),
                    None => Ok(Value::Null),
                }
            },
            ir::Expression::VarRead(var_id) => self.load(*var_id),
            ir::Expression::NewObject(class) => {
                let count: usize = match self.classes.get(&class.0.0) {
                    Some(info) => info.field_names.len(),
                    None => {
                        return Err(RuntimeError::UnknownClass);
                    },
                };
                let mut fields: Vec<Value> = Vec::new();
                let mut i: usize = 0;
                while i < count
                    invariant
                        i <= count,
                        fields@.len() == i,
                        forall|k: int| 0 <= k < i ==> data_of(#[trigger] fields@[k]) == Data::Null,
                    decreases count - i,
                {
                    proof {
                        lemma_data_of(Value::Null);
                    }
                    fields.push(Value::Null);
                    i = i + 1;
                }
                let v = Value::Object(Object { class: *class, fields });
                proof {
                    lemma_data_of(v);
                    assert(datas_of(fields@) =~= Seq::new(count as nat, |i: int| Data::Null));
                }
                Ok(v)
            },
        }
    }

    /// Evaluates a literal.
    fn run_literal(&mut self, l: &'a ir::Literal, fuel: u64) -> (r: Result<Value, RuntimeError>)
        ensures
            final(self).same_world(*old(self)),
            match eval(
                old(self).world(),
                old(self).machine(),
                fuel as nat,
                &ir::Expression::Literal(*l),
            ) {
                Ok((d, after)) => r matches Ok(v) && data_of(v) == d && final(self).machine()
                    == after,
                Err(err) => r matches Err(e) && e == err,
            },
        decreases fuel, 1int, l, 0int,
    {
        proof {
            lemma_data_of(Value::Null);
        }
        match l {
            ir::Literal::Bool(b) => {
                proof {
                    lemma_data_of(Value::Bool(*b));
                }
                Ok(Value::Bool(*b))
            },
            ir::Literal::Int(i) => {
                proof {
                    lemma_data_of(Value::Int(*i));
                }
                Ok(Value::Int(*i))
            },
            ir::Literal::String(s) => {
                let v = Value::String(s.clone());
                proof {
                    lemma_data_of(v);
                }
                Ok(v)
            },
            ir::Literal::Array(exprs) => {
                let values = self.run_arguments(exprs, fuel)?;
                let v = Value::Array(values);
                proof {
                    lemma_data_of(v);
                }
                Ok(v)
            },
            ir::Literal::Null => Ok(Value::Null),
        }
    }

    /// Evaluates a built-in operation.
    fn run_intrinsic(&mut self, i: &'a ir::Intrinsic, fuel: u64) -> (r: Result<
        Value,
        RuntimeError,
    >)
        ensures
            final(self).same_world(*old(self)),
            match eval(
                old(self).world(),
                old(self).machine(),
                fuel as nat,
                &ir::Expression::Intrinsic(Box::new(*i)),
            ) {
                Ok((d, after)) => r matches Ok(v) && data_of(v) == d && final(self).machine()
                    == after,
                Err(err) => r matches Err(e) && e == err,
            },
        decreases fuel, 1int, i, 0int,
    {
        match i {
            ir::Intrinsic::IntOp(op, left, right) => {
                let v1 = self.run_expression(left, fuel)?;
                let v2 = self.run_expression(right, fuel)?;
                proof {
                    lemma_data_of(v1);
                    lemma_data_of(v2);
                }
                let (a, b) = match (v1, v2) {
                    (Value::Int(a), Value::Int(b)) => (a, b),
                    _ => {
                        return Err(RuntimeError::NotAnInteger);
                    },
                };
                apply_int_op(*op, a, b)
            },
            ir::Intrinsic::PrintLine(expr) => {
                let val = self.run_expression(expr, fuel)?;
                let mut line = String::new();
                match render_value(&self.classes, &val, &mut line) {
                    Ok(()) => {},
                    Err(e) => {
                        return Err(e);
                    },
                }
                let ghost before = self.output@;
                let ghost text = rendered(self.world().classes, data_of(val)).unwrap();
                proof {
                    assert(line@ =~= text);
                }
                self.output.push(line);
                proof {
                    assert(names_of(self.output@) =~= names_of(before).push(text));
                }
                proof {
                    lemma_data_of(Value::Null);
                }
                // The value of a call that prints is never used.
                Ok(Value::Null)
            },
        }
    }
}

/// What a branch on the value `condition` to the position `target` asks
/// for.
fn branch_on(condition: &Value, target: usize) -> (r: Result<NextAction, RuntimeError>)
    ensures
        match branched(data_of(*condition), target) {
            Ok(next) => r matches Ok(a) && next_of(a) == next,
            Err(err) => r matches Err(e) && e == err,
        },
{
    proof {
        lemma_data_of(*condition);
    }
    match condition {
        Value::Bool(true) => Ok(NextAction::Jump(target)),
        Value::Bool(false) => Ok(NextAction::Continue),
        _ => Err(RuntimeError::NotABoolean),
    }
}

/// The result of the operation `op` on the integers `a` and `b`.
pub fn apply_int_op(op: BinaryOperator, a: i64, b: i64) -> (r: Result<Value, RuntimeError>)
    ensures
        match int_op(op, a, b) {
            Ok(d) => r matches Ok(v) && data_of(v) == d,
            Err(err) => r matches Err(e) && e == err,
        },
{
    proof {
        reveal(int_op);
        match int_op(op, a, b) {
            Ok(Data::Int(x)) => {
                lemma_data_of(Value::Int(x));
            },
            _ => {},
        }
        lemma_data_of(Value::Bool(a == b));
    }
    match op {
        BinaryOperator::Add => match a.checked_add(b) {
            Some(x) => Ok(Value::Int(x)),
            None => Err(RuntimeError::Overflow),
        },
        BinaryOperator::Sub => match a.checked_sub(b) {
            Some(x) => Ok(Value::Int(x)),
            None => Err(RuntimeError::Overflow),
        },
        BinaryOperator::Mul => match a.checked_mul(b) {
            Some(x) => Ok(Value::Int(x)),
            None => Err(RuntimeError::Overflow),
        },
        BinaryOperator::Div => {
            if b == 0 {
                return Err(RuntimeError::DivisionByZero);
            }
            match a.checked_div(b) {
                Some(x) => Ok(Value::Int(x)),
                None => Err(RuntimeError::Overflow),
            }
        },
        BinaryOperator::Eq => Ok(Value::Bool(a == b)),
    }
}

/// Runs `program` with `fuel` units of fuel and gives the lines it prints,
/// in order.
pub fn run_with_fuel(program: &ir::Program, classes: HashMap<u32, ClassInfo>, fuel: u64) -> (r:
    Result<Vec<String>, RuntimeError>)
    ensures
        match program_output(World { program, classes: summaries(classes@) }, fuel as nat) {
            Ok(lines) => r matches Ok(out) && names_of(out@) == lines,
            Err(err) => r matches Err(e) && e == err,
        },
{
    let mut interpreter = Interpreter {
        classes,
        program,
        stack: Vec::new(),
        stack_ptr: 0,
        output: Vec::new(),
    };
    proof {
        assert(interpreter.machine().stack =~= Seq::<Data>::empty());
        assert(interpreter.machine().out =~= Seq::<Seq<char>>::empty());
    }
    match interpreter.run(fuel) {
        Ok(()) => Ok(interpreter.output),
        Err(e) => Err(e),
    }
}

/// Runs `program` and gives the lines it prints, in order. The run is given
/// up when it has taken as many steps as a 64-bit number can count.
pub fn run(program: &ir::Program, classes: HashMap<u32, ClassInfo>) -> (r: Result<
    Vec<String>,
    RuntimeError,
>)
    ensures
        match program_output(World { program, classes: summaries(classes@) }, u64::MAX as nat) {
            Ok(lines) => r matches Ok(out) && names_of(out@) == lines,
            Err(err) => r matches Err(e) && e == err,
        },
{
    run_with_fuel(program, classes, u64::MAX)
}

} // verus!
