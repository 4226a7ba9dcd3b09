//! The values that a running program works on.

use vstd::prelude::*;
use crate::ast::Label;
use crate::labels;

verus! {

/// A value at run time.
#[derive(Debug)]
pub enum Value {
    String(String),
    Array(Vec<Value>),
    Bool(bool),
    Int(i64),
    Object(Object),
    Null,
}

/// An object: its class and the values of its fields, in declaration
/// order.
#[derive(Debug)]
pub struct Object {
    pub class: labels::ClassDecl,
    pub fields: Vec<Value>,
}

/// A value as plain data.
pub enum Data {
    Str(Seq<char>),
    Array(Seq<Data>),
    Bool(bool),
    Int(i64),
    Object(Label, Seq<Data>),
    Null,
}

/// Why a run was given up.
#[derive(Clone, Copy, Debug, PartialEq, Eq, Structural)]
pub enum RuntimeError {
    /// The run took more steps than it was allowed.
    OutOfFuel,
    /// An integer was divided by zero.
    DivisionByZero,
    /// The result of an operation on integers is no 64-bit integer.
    Overflow,
    /// An operand of an operation on integers is no integer.
    NotAnInteger,
    /// The condition of a branch is no boolean.
    NotABoolean,
    /// A field was read of something that is no object.
    NotAnObject,
    /// A field was read that the object does not have.
    UnknownField,
    /// A variable was used for which the stack frame has no slot.
    UnknownVariable,
    /// A method was called that the program does not have.
    UnknownMethod,
    /// An object belongs to a class of which nothing is known.
    UnknownClass,
}

/// The value `v` as plain data.
#[verifier::opaque]
pub open spec fn data_of(v: Value) -> Data
    decreases v,
{
    match v {
        Value::String(s) => Data::Str(s@),
        Value::Array(vs) => Data::Array(
            Seq::new(
                vs@.len(),
                |i: int|
                    if 0 <= i < vs@.len() {
                        data_of(vs@[i])
                    } else {
                        Data::Null
                    },
            ),
        ),
        Value::Bool(b) => Data::Bool(b),
        Value::Int(i) => Data::Int(i),
        Value::Object(o) => Data::Object(
            o.class.0,
            Seq::new(
                o.fields@.len(),
                |i: int|
                    if 0 <= i < o.fields@.len() {
                        data_of(o.fields@[i])
                    } else {
                        Data::Null
                    },
            ),
        ),
        Value::Null => Data::Null,
    }
}

/// The values `vs` as plain data.
pub open spec fn datas_of(vs: Seq<Value>) -> Seq<Data> {
    Seq::new(vs.len(), |i: int| data_of(vs[i]))
}

/// What `data_of` makes of each kind of value.
pub proof fn lemma_data_of(v: Value)
    ensures
        data_of(v) == (match v {
            Value::String(s) => Data::Str(s@),
            Value::Array(vs) => Data::Array(datas_of(vs@)),
            Value::Bool(b) => Data::Bool(b),
            Value::Int(i) => Data::Int(i),
            Value::Object(o) => Data::Object(o.class.0, datas_of(o.fields@)),
            Value::Null => Data::Null,
        }),
{
    reveal_with_fuel(data_of, 1);
    match v {
        Value::Array(vs) => {
            assert(data_of(v)->Array_0 =~= datas_of(vs@));
        },
        Value::Object(o) => {
            assert(data_of(v)->Object_1 =~= datas_of(o.fields@));
        },
        _ => {},
    }
}

/// The data of a longer list is the data of the list and of what was added.
pub proof fn lemma_datas_push(vs: Seq<Value>, v: Value)
    ensures
        datas_of(vs.push(v)) == datas_of(vs).push(data_of(v)),
{
    assert(datas_of(vs.push(v)) =~= datas_of(vs).push(data_of(v)));
}

/// The data of a list in which one value was replaced.
pub proof fn lemma_datas_update(vs: Seq<Value>, i: int, v: Value)
    requires
        0 <= i < vs.len(),
    ensures
        datas_of(vs.update(i, v)) == datas_of(vs).update(i, data_of(v)),
{
    assert(datas_of(vs.update(i, v)) =~= datas_of(vs).update(i, data_of(v)));
}

/// The data of two lists put together.
pub proof fn lemma_datas_add(a: Seq<Value>, b: Seq<Value>)
    ensures
        datas_of(a + b) == datas_of(a) + datas_of(b),
{
    assert(datas_of(a + b) =~= datas_of(a) + datas_of(b));
}

/// The data of the beginning of a list.
pub proof fn lemma_datas_take(vs: Seq<Value>, n: int)
    requires
        0 <= n <= vs.len(),
    ensures
        datas_of(vs.take(n)) == datas_of(vs).take(n),
{
    assert(datas_of(vs.take(n)) =~= datas_of(vs).take(n));
}

/// A copy of the values `vs`.
pub fn copy_values(vs: &Vec<Value>) -> (r: Vec<Value>)
    ensures
        datas_of(r@) == datas_of(vs@),
    decreases vs,
{
    let mut r: Vec<Value> = Vec::new();
    let mut i: usize = 0;
    while i < vs.len()
        invariant
            i <= vs.len(),
            r@.len() == i,
            forall|k: int| 0 <= k < i ==> data_of(#[trigger] r@[k]) == data_of(vs@[k]),
        decreases vs.len() - i,
    {
        r.push(copy_value(&vs[i]));
        i = i + 1;
    }
    assert(datas_of(r@) =~= datas_of(vs@));
    r
}

/// A copy of the value `v`.
pub fn copy_value(v: &Value) -> (r: Value)
    ensures
        data_of(r) == data_of(*v),
    decreases v,
{
    proof {
        lemma_data_of(*v);
    }
    let r = match v {
        Value::String(s) => Value::String(s.clone()),
        Value::Array(vs) => Value::Array(copy_values(vs)),
        Value::Bool(b) => Value::Bool(*b),
        Value::Int(i) => Value::Int(*i),
        Value::Object(o) => Value::Object(Object { class: o.class, fields: copy_values(&o.fields) }),
        Value::Null => Value::Null,
    };
    proof {
        lemma_data_of(r);
    }
    r
}

} // verus!
