//! How values are written out.

use std::collections::HashMap;
use vstd::prelude::*;
use vstd::string::StringExecFns;
use crate::interpreter::runtime::{data_of, datas_of, lemma_data_of, Data, RuntimeError, Value};
use crate::lowering::rules::ClassSummary;
use crate::lowering::{names_of, summaries, ClassInfo};

verus! {

broadcast use vstd::std_specs::hash::group_hash_axioms;

/// The decimal digit `d`.
pub open spec fn digit_text(d: int) -> Seq<char> {
    if d == 0 {
        "0"@
    } else if d == 1 {
        "1"@
    } else if d == 2 {
        "2"@
    } else if d == 3 {
        "3"@
    } else if d == 4 {
        "4"@
    } else if d == 5 {
        "5"@
    } else if d == 6 {
        "6"@
    } else if d == 7 {
        "7"@
    } else if d == 8 {
        "8"@
    } else {
        "9"@
    }
}

/// The natural number `n` in decimal, without leading zeros.
pub open spec fn decimal_nat(n: nat) -> Seq<char>
    decreases n,
{
    if n < 10 {
        digit_text(n as int)
    } else {
        decimal_nat(n / 10) + digit_text((n % 10) as int)
    }
}

/// The integer `i` in decimal, with a minus sign where it is negative.
pub open spec fn decimal(i: int) -> Seq<char> {
    if i < 0 {
        "-"@ + decimal_nat((-i) as nat)
    } else {
        decimal_nat(i as nat)
    }
}

/// What stands between two items of a list.
pub open spec fn separator(first: bool) -> Seq<char> {
    if first {
        Seq::empty()
    } else {
        ", "@
    }
}

/// The value `d` written out: a string as it is, an integer in decimal,
/// `true`, `false`, `null`, an array as `[a, b]`, and an object as
/// `Name { field: value, other: value }`, or as `Name { }` where it has no
/// fields. There is nothing to write for an object of a class that
/// `classes` does not know.
pub open spec fn rendered(classes: Map<u32, ClassSummary>, d: Data) -> Option<Seq<char>>
    decreases d, 0int,
{
    match d {
        Data::Str(s) => Some(s),
        Data::Bool(b) => Some(
            if b {
                "true"@
            } else {
                "false"@
            },
        ),
        Data::Int(i) => Some(decimal(i as int)),
        Data::Null => Some("null"@),
        Data::Array(items) => match rendered_items(classes, items, None, items.len() as int) {
            Some(text) => Some("["@ + text + "]"@),
            None => None,
        },
        Data::Object(class, fields) => if classes.contains_key(class.0) {
            let names = classes[class.0].field_names;
            let count = if names.len() < fields.len() {
                names.len() as int
            } else {
                fields.len() as int
            };
            match rendered_items(classes, fields, Some(names), count) {
                Some(text) => Some(
                    classes[class.0].name + (if count == 0 {
                        " {"@
                    } else {
                        " { "@
                    }) + text + " }"@,
                ),
                None => None,
            }
        } else {
            None
        },
    }
}

/// The first `upto` of `items` written out with `, ` between them; where
/// `names` are given, each item follows its name and `: `.
pub open spec fn rendered_items(
    classes: Map<u32, ClassSummary>,
    items: Seq<Data>,
    names: Option<Seq<Seq<char>>>,
    upto: int,
) -> Option<Seq<char>>
    decreases items, upto,
{
    if 0 < upto <= items.len() {
        match rendered_items(classes, items, names, upto - 1) {
            Some(before) => match rendered(classes, items[upto - 1]) {
                Some(text) => Some(
                    before + separator(upto == 1) + (match names {
                        Some(ns) => ns[upto - 1] + ": "@,
                        None => Seq::empty(),
                    }) + text,
                ),
                None => None,
            },
            None => None,
        }
    } else {
        Some(Seq::empty())
    }
}

fn digit_str(d: u64) -> (r: &'static str)
    requires
        d < 10,
    ensures
        r@ == digit_text(d as int),
{
    if d == 0 {
        "0"
    } else if d == 1 {
        "1"
    } else if d == 2 {
        "2"
    } else if d == 3 {
        "3"
    } else if d == 4 {
        "4"
    } else if d == 5 {
        "5"
    } else if d == 6 {
        "6"
    } else if d == 7 {
        "7"
    } else if d == 8 {
        "8"
    } else {
        "9"
    }
}

/// Puts `n` in decimal behind `out`.
fn append_decimal(n: u64, out: &mut String)
    ensures
        final(out)@ == old(out)@ + decimal_nat(n as nat),
    decreases n,
{
    if n >= 10 {
        append_decimal(n / 10, out);
    }
    out.append(digit_str(n % 10));
    assert(out@ =~= old(out)@ + decimal_nat(n as nat));
}

/// The integer `i` in decimal.
pub fn int_to_string(i: i64) -> (r: String)
    ensures
        r@ == decimal(i as int),
{
    let mut out = String::new();
    if i < 0 {
        out.append("-");
        let magnitude: u64 = (-(i as i128)) as u64;
        append_decimal(magnitude, &mut out);
    } else {
        append_decimal(i as u64, &mut out);
    }
    assert(out@ =~= decimal(i as int));
    out
}

/// Puts the value `v` written out behind `out`.
pub fn render_value(classes: &HashMap<u32, ClassInfo>, v: &Value, out: &mut String) -> (r: Result<
    (),
    RuntimeError,
>)
    ensures
        match rendered(summaries(classes@), data_of(*v)) {
            Some(text) => r is Ok && final(out)@ == old(out)@ + text,
            None => r == Err::<(), RuntimeError>(RuntimeError::UnknownClass),
        },
    decreases v, 1int,
{
    proof {
        lemma_data_of(*v);
    }
    match v {
        Value::String(s) => {
            out.append(s.as_str());
            Ok(())
        },
        Value::Bool(b) => {
            if *b {
                out.append("true");
            } else {
                out.append("false");
            }
            Ok(())
        },
        Value::Int(i) => {
            let text = int_to_string(*i);
            out.append(text.as_str());
            Ok(())
        },
        Value::Null => {
            out.append("null");
            Ok(())
        },
        Value::Array(items) => {
            out.append("[");
            render_items(classes, items, None, items.len(), out)?;
            out.append("]");
            proof {
                let text = rendered_items(
                    summaries(classes@),
                    datas_of(items@),
                    None,
                    items@.len() as int,
                ).unwrap();
                assert(out@ =~= old(out)@ + ("["@ + text + "]"@));
            }
            Ok(())
        },
        Value::Object(obj) => {
            let class = match classes.get(&obj.class.0.0) {
                Some(c) => c,
                None => {
                    return Err(RuntimeError::UnknownClass);
                },
            };
            out.append(class.name.as_str());
            let count: usize = if class.field_names.len() < obj.fields.len() {
                class.field_names.len()
            } else {
                obj.fields.len()
            };
            if count == 0 {
                out.append(" {");
            } else {
                out.append(" { ");
            }
            render_items(classes, &obj.fields, Some(&class.field_names), count, out)?;
            out.append(" }");
            proof {
                let text = rendered_items(
                    summaries(classes@),
                    datas_of(obj.fields@),
                    Some(names_of(class.field_names@)),
                    count as int,
                ).unwrap();
                assert(out@ =~= old(out)@ + (class.name@ + (if count == 0 {
                    " {"@
                } else {
                    " { "@
                }) + text + " }"@));
            }
            Ok(())
        },
    }
}

/// Puts the first `upto` of `items` written out behind `out`.
fn render_items(
    classes: &HashMap<u32, ClassInfo>,
    items: &Vec<Value>,
    names: Option<&Vec<String>>,
    upto: usize,
    out: &mut String,
) -> (r: Result<(), RuntimeError>)
    requires
        upto <= items@.len(),
        names matches Some(ns) ==> upto <= ns@.len(),
    ensures
        match rendered_items(
            summaries(classes@),
            datas_of(items@),
            match names {
                Some(ns) => Some(names_of(ns@)),
                None => None,
            },
            upto as int,
        ) {
            Some(text) => r is Ok && final(out)@ == old(out)@ + text,
            None => r == Err::<(), RuntimeError>(RuntimeError::UnknownClass),
        },
    decreases items, 0int,
{
    let ghost table = summaries(classes@);
    let ghost datas = datas_of(items@);
    let ghost spec_names = match names {
        Some(ns) => Some(names_of(ns@)),
        None => None,
    };
    let mut i: usize = 0;
    while i < upto
        invariant
            i <= upto <= items@.len(),
            names matches Some(ns) ==> upto <= ns@.len(),
            table == summaries(classes@),
            datas == datas_of(items@),
            spec_names == (match names {
                Some(ns) => Some(names_of(ns@)),
                None => None,
            }),
            rendered_items(table, datas, spec_names, i as int) matches Some(text) && out@ == old(
                out,
            )@ + text,
        decreases upto - i,
    {
        let ghost before = out@;
        let ghost sofar = rendered_items(table, datas, spec_names, i as int).unwrap();
        if i > 0 {
            out.append(", ");
        }
        match names {
            Some(ns) => {
                out.append(ns[i].as_str());
                out.append(": ");
            },
            None => {},
        }
        let ghost mid = out@;
        match render_value(classes, &items[i], out) {
            Ok(()) => {},
            Err(e) => {
                proof {
                    lemma_items_fail(table, datas, spec_names, i as int + 1, upto as int);
                }
                return Err(e);
            },
        }
        proof {
            let text = rendered(table, datas[i as int]).unwrap();
            let label = match spec_names {
                Some(ns) => ns[i as int] + ": "@,
                None => Seq::empty(),
            };
            assert(mid =~= before + separator(i == 0) + label);
            assert(out@ =~= old(out)@ + (sofar + separator(i == 0) + label + text));
        }
        i = i + 1;
    }
    Ok(())
}

/// Once some items cannot be written out, no longer list of them can.
proof fn lemma_items_fail(
    classes: Map<u32, ClassSummary>,
    items: Seq<Data>,
    names: Option<Seq<Seq<char>>>,
    upto: int,
    more: int,
)
    requires
        0 < upto <= more <= items.len(),
        rendered_items(classes, items, names, upto) is None,
    ensures
        rendered_items(classes, items, names, more) is None,
    decreases more - upto,
{
    if upto < more {
        lemma_items_fail(classes, items, names, upto, more - 1);
    }
}

} // verus!
