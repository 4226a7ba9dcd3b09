//! What holds of the numbering of the variables of a method: the ids are
//! the slots of the stack frame counted from 0 without a gap, and slot 0 is
//! the receiver exactly in a method that is not static.

use vstd::prelude::*;
use crate::ast::{MethodDecl, Statement, VarDecl};
use crate::ast::Label;
use crate::lowering::rules::{block_scope_after, method_scope, params_scope, scope_after};
use crate::var_tracker::Scope;

verus! {

/// Whether `scope` is a numbering of a method that is static or not as
/// `is_static` says: every slot but that of the receiver belongs to a
/// declaration, the receiver has slot 0 exactly if the method is not
/// static, and the id of a declaration is a slot taken for it.
pub open spec fn numbered(scope: Scope, is_static: bool) -> bool {
    &&& forall|l: u32| #[trigger]
        scope.vars.contains_key(l) ==> 0 <= scope.vars[l].0 < scope.slots.len()
            && scope.slots[scope.vars[l].0 as int] == Some(Label(l))
    &&& forall|k: int|
        (if is_static {
            0
        } else {
            1int
        }) <= k < scope.slots.len() ==> (#[trigger] scope.slots[k]) is Some
    &&& !is_static ==> scope.slots.len() >= 1 && scope.slots[0] is None
}

/// Whether `later` has the slots of `earlier` and perhaps more.
pub open spec fn prolongs(later: Scope, earlier: Scope) -> bool {
    &&& earlier.slots.len() <= later.slots.len()
    &&& forall|k: int| 0 <= k < earlier.slots.len() ==> #[trigger] later.slots[k] == earlier.slots[k]
}

proof fn lemma_with_var(scope: Scope, label: Label, is_static: bool)
    requires
        numbered(scope, is_static),
        scope.slots.len() < usize::MAX,
    ensures
        numbered(scope.with_var(label), is_static),
        prolongs(scope.with_var(label), scope),
        scope.with_var(label).vars[label.0].0 == scope.slots.len(),
{
    let next = scope.with_var(label);
    assert forall|l: u32| #[trigger] next.vars.contains_key(l) implies 0 <= next.vars[l].0
        < next.slots.len() && next.slots[next.vars[l].0 as int] == Some(Label(l)) by {
        if l != label.0 {
            assert(scope.vars.contains_key(l));
        }
    }
}

proof fn lemma_prolongs_chain(c: Scope, b: Scope, a: Scope)
    requires
        prolongs(c, b),
        prolongs(b, a),
    ensures
        prolongs(c, a),
{
    assert forall|k: int| 0 <= k < a.slots.len() implies #[trigger] c.slots[k] == a.slots[k] by {
        assert(b.slots[k] == a.slots[k]);
    }
}

proof fn lemma_params(scope: Scope, params: Seq<VarDecl>, from: int, is_static: bool)
    requires
        0 <= from,
        numbered(scope, is_static),
        params_scope(scope, params, from).slots.len() <= usize::MAX,
    ensures
        numbered(params_scope(scope, params, from), is_static),
        prolongs(params_scope(scope, params, from), scope),
    decreases params.len() - from,
{
    if from < params.len() {
        let next = scope.with_var(params[from].label);
        lemma_params_length(next, params, from + 1);
        lemma_with_var(scope, params[from].label, is_static);
        lemma_params(next, params, from + 1, is_static);
        lemma_prolongs_chain(params_scope(scope, params, from), next, scope);
    }
}

proof fn lemma_params_length(scope: Scope, params: Seq<VarDecl>, from: int)
    requires
        0 <= from,
    ensures
        scope.slots.len() <= params_scope(scope, params, from).slots.len(),
    decreases params.len() - from,
{
    if from < params.len() {
        lemma_params_length(scope.with_var(params[from].label), params, from + 1);
    }
}

proof fn lemma_statement_length(scope: Scope, s: &Statement)
    ensures
        scope.slots.len() <= scope_after(scope, s).slots.len(),
    decreases s,
{
    match *s {
        Statement::IfThenElse(ite) => {
            let after_else = block_scope_after(scope, ite.else_block@, 0);
            lemma_block_length(scope, ite.else_block@, 0);
            lemma_block_length(after_else, ite.then_block@, 0);
        },
        _ => {},
    }
}

proof fn lemma_block_length(scope: Scope, ss: Seq<Statement>, from: int)
    requires
        0 <= from,
    ensures
        scope.slots.len() <= block_scope_after(scope, ss, from).slots.len(),
    decreases ss, ss.len() - from,
{
    if from < ss.len() {
        lemma_statement_length(scope, &ss[from]);
        lemma_block_length(scope_after(scope, &ss[from]), ss, from + 1);
    }
}

proof fn lemma_statement(scope: Scope, s: &Statement, is_static: bool)
    requires
        numbered(scope, is_static),
        scope_after(scope, s).slots.len() <= usize::MAX,
    ensures
        numbered(scope_after(scope, s), is_static),
        prolongs(scope_after(scope, s), scope),
    decreases s,
{
    match *s {
        Statement::VarDecl(vd) => {
            lemma_with_var(scope, vd.label, is_static);
        },
        Statement::IfThenElse(ite) => {
            let after_else = block_scope_after(scope, ite.else_block@, 0);
            lemma_block_length(after_else, ite.then_block@, 0);
            lemma_block(scope, ite.else_block@, 0, is_static);
            lemma_block(after_else, ite.then_block@, 0, is_static);
            lemma_prolongs_chain(scope_after(scope, s), after_else, scope);
        },
        _ => {},
    }
}

proof fn lemma_block(scope: Scope, ss: Seq<Statement>, from: int, is_static: bool)
    requires
        0 <= from,
        numbered(scope, is_static),
        block_scope_after(scope, ss, from).slots.len() <= usize::MAX,
    ensures
        numbered(block_scope_after(scope, ss, from), is_static),
        prolongs(block_scope_after(scope, ss, from), scope),
    decreases ss, ss.len() - from,
{
    if from < ss.len() {
        let next = scope_after(scope, &ss[from]);
        lemma_block_length(next, ss, from + 1);
        lemma_statement(scope, &ss[from], is_static);
        lemma_block(next, ss, from + 1, is_static);
        lemma_prolongs_chain(block_scope_after(scope, ss, from), next, scope);
    }
}

/// The ids of the variables of a method are the slots of its stack frame,
/// counted from 0 without a gap in the order in which lowering meets the
/// declarations, and slot 0 is the receiver exactly if the method is not
/// static. This holds of every method whose variables a stack frame can
/// hold.
pub proof fn lemma_method_numbering(md: &MethodDecl)
    requires
        block_scope_after(method_scope(md), md.body@, 0).slots.len() <= usize::MAX,
    ensures
        numbered(block_scope_after(method_scope(md), md.body@, 0), md.is_static),
        prolongs(block_scope_after(method_scope(md), md.body@, 0), method_scope(md)),
        method_scope(md).slots.len() == md.params@.len() + (if md.is_static {
            0int
        } else {
            1int
        }),
{
    let first = if md.is_static {
        Scope::empty()
    } else {
        Scope::empty().with_this()
    };
    lemma_block_length(method_scope(md), md.body@, 0);
    lemma_params(first, md.params@, 0, md.is_static);
    lemma_block(method_scope(md), md.body@, 0, md.is_static);
    lemma_params_count(first, md.params@, 0);
}

proof fn lemma_params_count(scope: Scope, params: Seq<VarDecl>, from: int)
    requires
        0 <= from <= params.len(),
    ensures
        params_scope(scope, params, from).slots.len() == scope.slots.len() + params.len() - from,
    decreases params.len() - from,
{
    if from < params.len() {
        lemma_params_count(scope.with_var(params[from].label), params, from + 1);
    }
}

} // verus!
