//! Answers to questions about a program, computed when they are asked.

use std::collections::HashMap;
use vstd::prelude::*;
use vstd::hash_map::StringHashMap;
use crate::ast::{
    BinaryOp, BinaryOperator, ClassDecl, Expression, FieldAccess, Identifier, Label, Literal,
    LiteralKind, MethodCall, MethodDecl, New, Program, This, VarDecl,
};
use crate::error::CompileError;
use crate::labels;
use crate::node::Node;
use crate::preprocess::{preprocessed, AstPreprocessor, AstView};
use crate::type_map::{
    denotes, extends, int_id, lemma_denotes_injective, lemma_extends_denotes,
    lemma_unifies_terms, resolve, table_after, table_wf, valid_id, Type, TypeId, TypeMap,
    TypeTerm,
};
use crate::typing::{
    args_agree, args_table, args_typed, call_table, call_term, field_query_table,
    known_call_table, label_table, member_table, method_query_table, node_table, typing_table, class_at, class_of_term, declared_type_at, field_at,
    label_term, method_at, method_decl_at, node_term, operand_term, params_resolved,
    params_table, receiver_class, return_type_at, type_term, var_decl_of, written_type_at,
};

verus! {

broadcast use vstd::std_specs::hash::group_hash_axioms;

/// Whether `r` is the answer to a question about a type whose answer, with
/// types written out in full, is `expected`: the same fault, the same
/// absence, or an id that stands for the same type in `table`.
pub open spec fn answers(
    table: Seq<Type>,
    r: Result<Option<TypeId>, CompileError>,
    expected: Result<Option<TypeTerm>, CompileError>,
) -> bool {
    match expected {
        Ok(Some(t)) => r matches Ok(Some(id)) && valid_id(table, id) && denotes(table, id) == t,
        Ok(None) => r == Ok::<Option<TypeId>, CompileError>(None),
        Err(err) => r == Err::<Option<TypeId>, CompileError>(err),
    }
}

/// As [`answers`], for a question that always has a type for an answer.
pub open spec fn answers_type(
    table: Seq<Type>,
    r: Result<TypeId, CompileError>,
    expected: Result<TypeTerm, CompileError>,
) -> bool {
    match expected {
        Ok(t) => r matches Ok(id) && valid_id(table, id) && denotes(table, id) == t,
        Err(err) => r == Err::<TypeId, CompileError>(err),
    }
}

/// The tables of a program together with the table of the types met while
/// answering questions about it.
pub struct QueryEngine<'a> {
    pub nodes: HashMap<u32, Node<'a>>,
    var_map: HashMap<u32, &'a VarDecl>,
    this_map: HashMap<u32, &'a ClassDecl>,
    types: TypeMap,
    classes_by_name: StringHashMap<&'a ClassDecl>,
    entry_point: &'a MethodDecl,
    /// The answers given so far to questions about the types of
    /// expressions, by the labels of the expressions.
    expr_memo: HashMap<u32, Option<TypeId>>,
    /// The answers given so far to questions about the fields that accesses
    /// reach, by the labels of the accesses.
    field_memo: HashMap<u32, Label>,
    /// The answers given so far to questions about the methods that calls
    /// call, by the labels of the calls.
    method_memo: HashMap<u32, Label>,
    /// The table of types as it was when the last answer about a type was
    /// kept.
    memo_table: Ghost<Seq<Type>>,
}

impl<'a> QueryEngine<'a> {
    /// The tables of the program, as plain maps.
    pub closed spec fn tables(&self) -> AstView<'a> {
        AstView {
            nodes: self.nodes@,
            classes_by_name: self.classes_by_name@,
            var_map: self.var_map@,
            this_map: self.this_map@,
            entry_point: self.entry_point,
        }
    }

    /// The table of types, as the engine holds it.
    pub closed spec fn type_map(&self) -> TypeMap {
        self.types
    }

    /// The table of types.
    pub closed spec fn type_table(&self) -> Seq<Type> {
        self.types@
    }

    /// The answers kept so far to questions about the types of expressions,
    /// by the labels of the expressions.
    pub closed spec fn kept_types(&self) -> Map<u32, Option<TypeId>> {
        self.expr_memo@
    }

    /// The answers kept so far to questions about the fields that accesses
    /// reach, by the labels of the accesses.
    pub closed spec fn kept_fields(&self) -> Map<u32, Label> {
        self.field_memo@
    }

    /// The answers kept so far to questions about the methods that calls
    /// call, by the labels of the calls.
    pub closed spec fn kept_methods(&self) -> Map<u32, Label> {
        self.method_memo@
    }

    /// The invariant of the engine, as far as it concerns what is hidden.
    pub closed spec fn inner_wf(&self) -> bool {
        &&& self.types.wf()
        &&& table_wf(self.memo_table@)
        &&& extends(self.types@, self.memo_table@)
        &&& forall|l: u32| #[trigger]
            self.expr_memo@.contains_key(l) ==> answers(
                self.memo_table@,
                Ok::<Option<TypeId>, CompileError>(self.expr_memo@[l]),
                label_term(self.tables(), l),
            )
        &&& forall|l: u32| #[trigger]
            self.field_memo@.contains_key(l) ==> field_at(self.tables(), l) == Ok::<
                Label,
                CompileError,
            >(self.field_memo@[l])
        &&& forall|l: u32| #[trigger]
            self.method_memo@.contains_key(l) ==> method_at(self.tables(), l) == Ok::<
                Label,
                CompileError,
            >(self.method_memo@[l])
    }

    /// The invariant of the engine.
    pub open spec fn wf(&self) -> bool {
        self.inner_wf() && table_wf(self.type_table())
    }

    /// Whether this engine is what `before` has become by answering
    /// questions: the tables of the program are the same, and every id that
    /// was issued keeps its type.
    pub open spec fn grown_from(&self, before: QueryEngine<'a>) -> bool {
        &&& self.wf()
        &&& self.tables() == before.tables()
        &&& extends(self.type_table(), before.type_table())
    }

    /// The table of types of a well-formed engine is well formed.
    pub proof fn lemma_wf(&self)
        requires
            self.wf(),
        ensures
            table_wf(self.type_table()),
    {
    }

    /// An engine for the program `program`, or the reason for which the
    /// program is rejected.
    pub fn new(program: &'a Program) -> (r: Result<QueryEngine<'a>, CompileError>)
        ensures
            match preprocessed(program) {
                Ok(v) => r matches Ok(engine) && engine.wf() && engine.tables() == v
                    && engine.type_table() == seq![
                    Type::Int,
                    Type::String,
                    Type::Void,
                    Type::Bool,
                    Type::Console,
                ],
                Err(err) => r matches Err(e) && e == err,
            },
    {
        match AstPreprocessor::preprocess(program) {
            Ok(ast_data) => {
                let types = TypeMap::new();
                Ok(
                    QueryEngine {
                        memo_table: Ghost(types@),
                        types,
                        nodes: ast_data.nodes,
                        var_map: ast_data.var_map,
                        this_map: ast_data.this_map,
                        classes_by_name: ast_data.classes_by_name,
                        entry_point: ast_data.entry_point,
                        expr_memo: HashMap::new(),
                        field_memo: HashMap::new(),
                        method_memo: HashMap::new(),
                    },
                )
            },
            Err(e) => Err(e),
        }
    }

    /// The entry point of the program.
    pub fn entry_point(&self) -> (r: &'a MethodDecl)
        ensures
            r == self.tables().entry_point,
    {
        self.entry_point
    }

    /// The table of types.
    pub fn types(&self) -> (r: &TypeMap)
        ensures
            r@ == self.type_table(),
            self.wf() ==> r.wf(),
    {
        &self.types
    }

    /// The node labelled `label`, if there is one.
    pub fn node(&self, label: Label) -> (r: Option<Node<'a>>)
        ensures
            r == (if self.tables().nodes.contains_key(label.0) {
                Some(self.tables().nodes[label.0])
            } else {
                None
            }),
    {
        match self.nodes.get(&label.0) {
            Some(n) => Some(*n),
            None => None,
        }
    }

    /// The class declared at `decl`, if a class is.
    pub fn class(&self, decl: labels::ClassDecl) -> (r: Option<&'a ClassDecl>)
        ensures
            r == class_at(self.tables(), decl.0.0),
    {
        match self.nodes.get(&decl.0.0) {
            Some(Node::ClassDecl(cd)) => Some(*cd),
            _ => None,
        }
    }

    /// The label of the class called `name`.
    pub fn query_class_decl(&self, name: &str) -> (r: Result<labels::ClassDecl, CompileError>)
        ensures
            r == (if self.tables().classes_by_name.contains_key(name@) {
                Ok::<labels::ClassDecl, CompileError>(
                    labels::ClassDecl(self.tables().classes_by_name[name@].label),
                )
            } else {
                Err::<labels::ClassDecl, CompileError>(CompileError::UnresolvedClass)
            }),
    {
        match self.classes_by_name.get(name) {
            Some(cd) => Ok(cd.label.assert_as_class_decl()),
            None => Err(CompileError::UnresolvedClass),
        }
    }

    /// The declaration of the variable that `label` names. `label` may be
    /// the label of a declaration, of an identifier or of an assignment.
    pub fn query_var_decl(&self, label: Label) -> (r: Result<labels::VarDecl, CompileError>)
        ensures
            r == (match var_decl_of(self.tables(), label.0) {
                Ok(l) => Ok::<labels::VarDecl, CompileError>(labels::VarDecl(l)),
                Err(err) => Err::<labels::VarDecl, CompileError>(err),
            }),
    {
        match self.nodes.get(&label.0) {
            Some(Node::VarDecl(_)) => {
                return Ok(label.assert_as_var_decl());
            },
            _ => {},
        }
        match self.var_map.get(&label.0) {
            Some(vd) => Ok(vd.label.assert_as_var_decl()),
            None => Err(CompileError::UnresolvedName),
        }
    }

    /// Whether the method declared at `method` is static.
    pub fn query_is_static(&self, method: labels::MethodDecl) -> (r: Result<bool, CompileError>)
        ensures
            r == (if self.tables().nodes.contains_key(method.0.0) {
                match self.tables().nodes[method.0.0] {
                    Node::MethodDecl(md) => Ok::<bool, CompileError>(md.is_static),
                    _ => Err::<bool, CompileError>(CompileError::UnknownNode),
                }
            } else {
                Err::<bool, CompileError>(CompileError::UnknownNode)
            }),
    {
        match self.nodes.get(&method.0.0) {
            Some(Node::MethodDecl(md)) => Ok(md.is_static),
            _ => Err(CompileError::UnknownNode),
        }
    }

    /// The type that the declared type `ty` stands for.
    fn resolve_type(&mut self, ty: &crate::ast::Type) -> (r: Result<TypeId, CompileError>)
        requires
            old(self).wf(),
        ensures
            final(self).grown_from(*old(self)),
            final(self).type_table() == table_after(
                old(self).type_table(),
                *ty,
                old(self).tables().classes_by_name,
            ),
            answers_type(
                final(self).type_table(),
                r,
                resolve(*ty, old(self).tables().classes_by_name),
            ),
    {
        self.types.get_from_ast_ty(ty, &self.classes_by_name)
    }

    /// The class whose members are reached through a target of type `ty`.
    fn class_of_type(&self, ty: TypeId) -> (r: Result<&'a ClassDecl, CompileError>)
        requires
            self.wf(),
            valid_id(self.type_table(), ty),
        ensures
            r == class_of_term(self.tables(), denotes(self.type_table(), ty)),
    {
        match self.types.get(ty) {
            Some(Type::Class(cd)) => match self.nodes.get(&cd.0.0) {
                Some(Node::ClassDecl(class)) => Ok(*class),
                _ => Err(CompileError::UnknownNode),
            },
            _ => Err(CompileError::NonClassFieldTarget),
        }
    }

    /// The class in which the method of the call `mc` is looked up, and
    /// whether the call is static.
    fn receiver(&mut self, mc: &'a MethodCall) -> (r: Result<(&'a ClassDecl, bool), CompileError>)
        requires
            old(self).wf(),
        ensures
            final(self).grown_from(*old(self)),
            final(self).type_table() == typing_table(old(self).tables(), old(self).type_table(), &*mc.target),
            match receiver_class(old(self).tables(), mc) {
                Ok(cd) => r matches Ok(found) && found.0 == cd && found.1 == (type_term(
                    old(self).tables(),
                    &*mc.target,
                ) == Ok::<Option<TypeTerm>, CompileError>(None)),
                Err(err) => r matches Err(e) && e == err,
            },
        decreases mc, 0int,
    {
        match self.expr_type(&mc.target)? {
            Some(ty) => {
                let class = self.class_of_type(ty)?;
                Ok((class, false))
            },
            None => match &*mc.target {
                Expression::Identifier(i) => match self.classes_by_name.get(i.name.as_str()) {
                    Some(class) => Ok((*class, true)),
                    None => Err(CompileError::UnresolvedClass),
                },
                _ => Err(CompileError::UnknownNode),
            },
        }
    }

    /// The type of an operand: an operand must have one.
    fn operand_type(&mut self, e: &'a Expression) -> (r: Result<TypeId, CompileError>)
        requires
            old(self).wf(),
        ensures
            final(self).grown_from(*old(self)),
            final(self).type_table() == typing_table(old(self).tables(), old(self).type_table(), e),
            answers_type(final(self).type_table(), r, operand_term(old(self).tables(), e)),
        decreases e, 1int,
    {
        match self.expr_type(e)? {
            Some(ty) => Ok(ty),
            None => Err(CompileError::UnresolvedName),
        }
    }

    pub(crate) fn literal_type(&mut self, l: &'a Literal) -> (r: Result<Option<TypeId>, CompileError>)
        requires
            old(self).wf(),
        ensures
            final(self).grown_from(*old(self)),
            final(self).type_table() == typing_table(
                old(self).tables(),
                old(self).type_table(),
                &Expression::Literal(*l),
            ),
            answers(
                final(self).type_table(),
                r,
                type_term(old(self).tables(), &Expression::Literal(*l)),
            ),
    {
        match &l.kind {
            LiteralKind::Int(_) => Ok(Some(self.types.int_ty())),
            LiteralKind::String(_) => Ok(Some(self.types.string_ty())),
            LiteralKind::Bool(_) => Ok(Some(self.types.bool_ty())),
            LiteralKind::Null => Ok(Some(self.types.any_ty())),
            LiteralKind::Array(ast_ty, _) => {
                let inner = self.types.get_from_ast_ty(ast_ty, &self.classes_by_name)?;
                let ghost mid = self.types@;
                let id = self.types.get_id(Type::Array(inner));
                proof {
                    assert forall|i: int| 0 <= i < old(self).types@.len() implies #[trigger] self.types@[i]
                        == old(self).types@[i] by {
                        assert(mid[i] == old(self).types@[i]);
                    }
                }
                Ok(Some(id))
            },
        }
    }

    pub(crate) fn identifier_type(&mut self, i: &'a Identifier) -> (r: Result<Option<TypeId>, CompileError>)
        requires
            old(self).wf(),
        ensures
            final(self).grown_from(*old(self)),
            final(self).type_table() == typing_table(
                old(self).tables(),
                old(self).type_table(),
                &Expression::Identifier(*i),
            ),
            answers(
                final(self).type_table(),
                r,
                type_term(old(self).tables(), &Expression::Identifier(*i)),
            ),
    {
        match self.var_map.get(&i.label.0) {
            Some(var_decl) => {
                let var_decl: &'a VarDecl = *var_decl;
                let id = self.types.get_from_ast_ty(&var_decl.ty, &self.classes_by_name)?;
                Ok(Some(id))
            },
            None => Ok(None),
        }
    }

    pub(crate) fn this_type(&mut self, t: &'a This) -> (r: Result<Option<TypeId>, CompileError>)
        requires
            old(self).wf(),
        ensures
            final(self).grown_from(*old(self)),
            final(self).type_table() == typing_table(
                old(self).tables(),
                old(self).type_table(),
                &Expression::This(*t),
            ),
            answers(final(self).type_table(), r, type_term(old(self).tables(), &Expression::This(*t))),
    {
        match self.this_map.get(&t.label.0) {
            Some(class_decl) => {
                let class_decl: &'a ClassDecl = *class_decl;
                let id = self.types.get_from_class_name(
                    class_decl.name.as_str(),
                    &self.classes_by_name,
                )?;
                Ok(Some(id))
            },
            None => Err(CompileError::UnknownNode),
        }
    }

    pub(crate) fn new_type(&mut self, n: &'a New) -> (r: Result<Option<TypeId>, CompileError>)
        requires
            old(self).wf(),
        ensures
            final(self).grown_from(*old(self)),
            final(self).type_table() == typing_table(
                old(self).tables(),
                old(self).type_table(),
                &Expression::New(*n),
            ),
            answers(final(self).type_table(), r, type_term(old(self).tables(), &Expression::New(*n))),
    {
        let id = self.types.get_from_class_name(n.class_name.as_str(), &self.classes_by_name)?;
        Ok(Some(id))
    }

    /// The type of the binary operation `bo`, given the types of its
    /// operands.
    pub(crate) fn binary_op_rule(
        &self,
        bo: &'a BinaryOp,
        left: Option<TypeId>,
        right: Option<TypeId>,
    ) -> (r: Result<Option<TypeId>, CompileError>)
        requires
            self.wf(),
            answers(
                self.type_table(),
                Ok::<Option<TypeId>, CompileError>(left),
                type_term(self.tables(), &*bo.left),
            ),
            left is Some ==> answers(
                self.type_table(),
                Ok::<Option<TypeId>, CompileError>(right),
                type_term(self.tables(), &*bo.right),
            ),
        ensures
            answers(self.type_table(), r, type_term(self.tables(), &Expression::BinaryOp(*bo))),
    {
        let left_ty = match left {
            Some(ty) => ty,
            None => {
                return Err(CompileError::UnresolvedName);
            },
        };
        let right_ty = match right {
            Some(ty) => ty,
            None => {
                return Err(CompileError::UnresolvedName);
            },
        };
        proof {
            let table = self.types@;
            if denotes(table, left_ty) == TypeTerm::Int {
                lemma_denotes_injective(table, left_ty, int_id());
            }
            if denotes(table, right_ty) == TypeTerm::Int {
                lemma_denotes_injective(table, right_ty, int_id());
            }
        }
        let int_ty = self.types.int_ty();
        let well_typed = left_ty == right_ty && left_ty == int_ty;
        if !well_typed {
            return Err(CompileError::TypeMismatch);
        }
        match bo.operator {
            BinaryOperator::Eq => Ok(Some(self.types.bool_ty())),
            _ => Ok(Some(int_ty)),
        }
    }

    pub(crate) fn binary_op_type(&mut self, bo: &'a BinaryOp) -> (r: Result<Option<TypeId>, CompileError>)
        requires
            old(self).wf(),
        ensures
            final(self).grown_from(*old(self)),
            final(self).type_table() == typing_table(
                old(self).tables(),
                old(self).type_table(),
                &Expression::BinaryOp(*bo),
            ),
            answers(
                final(self).type_table(),
                r,
                type_term(old(self).tables(), &Expression::BinaryOp(*bo)),
            ),
        decreases bo,
    {
        let left_ty = self.operand_type(&bo.left)?;
        let ghost mid = self.types@;
        let right_ty = self.operand_type(&bo.right)?;
        proof {
            let table = self.types@;
            lemma_extends_denotes(table, mid, left_ty);
            assert forall|i: int| 0 <= i < old(self).types@.len() implies #[trigger] table[i] == old(
                self,
            ).types@[i] by {
                assert(mid[i] == old(self).types@[i]);
            }
        }
        self.binary_op_rule(bo, Some(left_ty), Some(right_ty))
    }

    /// The type of the field access `fa`, given the type of its target.
    pub(crate) fn field_access_rule(&mut self, fa: &'a FieldAccess, target: Option<TypeId>) -> (r:
        Result<Option<TypeId>, CompileError>)
        requires
            old(self).wf(),
            answers(
                old(self).type_table(),
                Ok::<Option<TypeId>, CompileError>(target),
                type_term(old(self).tables(), &*fa.target),
            ),
        ensures
            final(self).grown_from(*old(self)),
            final(self).type_table() == (match target {
                Some(ty) => member_table(
                    old(self).tables(),
                    old(self).type_table(),
                    denotes(old(self).type_table(), ty),
                    fa.field_name@,
                ),
                None => old(self).type_table(),
            }),
            answers(
                final(self).type_table(),
                r,
                type_term(old(self).tables(), &Expression::FieldAccess(*fa)),
            ),
    {
        let target_ty = match target {
            Some(ty) => ty,
            None => {
                return Err(CompileError::UnresolvedName);
            },
        };
        let class_decl = self.class_of_type(target_ty)?;
        match class_decl.find_field_decl(fa.field_name.as_str()) {
            Some(field_decl) => {
                let id = self.types.get_from_ast_ty(&field_decl.ty, &self.classes_by_name)?;
                Ok(Some(id))
            },
            None => Err(CompileError::UnresolvedName),
        }
    }

    fn field_access_type(&mut self, fa: &'a FieldAccess) -> (r: Result<
        Option<TypeId>,
        CompileError,
    >)
        requires
            old(self).wf(),
        ensures
            final(self).grown_from(*old(self)),
            final(self).type_table() == typing_table(
                old(self).tables(),
                old(self).type_table(),
                &Expression::FieldAccess(*fa),
            ),
            answers(
                final(self).type_table(),
                r,
                type_term(old(self).tables(), &Expression::FieldAccess(*fa)),
            ),
        decreases fa,
    {
        let target_ty = self.operand_type(&fa.target)?;
        let ghost mid = self.types@;
        let r = self.field_access_rule(fa, Some(target_ty));
        proof {
            assert forall|i: int| 0 <= i < old(self).types@.len() implies #[trigger] self.types@[i]
                == old(self).types@[i] by {
                assert(mid[i] == old(self).types@[i]);
            }
        }
        r
    }

    /// The class in which the method of the call `mc` is looked up, given
    /// the type of the target of the call.
    fn receiver_rule(&self, mc: &'a MethodCall, target: Option<TypeId>) -> (r: Result<
        &'a ClassDecl,
        CompileError,
    >)
        requires
            self.wf(),
            answers(
                self.type_table(),
                Ok::<Option<TypeId>, CompileError>(target),
                type_term(self.tables(), &*mc.target),
            ),
        ensures
            r == receiver_class(self.tables(), mc),
    {
        match target {
            Some(ty) => self.class_of_type(ty),
            None => match &*mc.target {
                Expression::Identifier(i) => match self.classes_by_name.get(i.name.as_str()) {
                    Some(class) => Ok(*class),
                    None => Err(CompileError::UnresolvedClass),
                },
                _ => Err(CompileError::UnknownNode),
            },
        }
    }

    /// The type of the call `mc`, given the types of its target and of its
    /// arguments.
    pub(crate) fn method_call_rule(
        &mut self,
        mc: &'a MethodCall,
        target: Option<TypeId>,
        args: &Vec<Option<TypeId>>,
    ) -> (r: Result<Option<TypeId>, CompileError>)
        requires
            old(self).wf(),
            answers(
                old(self).type_table(),
                Ok::<Option<TypeId>, CompileError>(target),
                type_term(old(self).tables(), &*mc.target),
            ),
            args@.len() == mc.args@.len(),
            forall|k: int|
                0 <= k < args@.len() ==> answers(
                    old(self).type_table(),
                    Ok::<Option<TypeId>, CompileError>(#[trigger] args@[k]),
                    type_term(old(self).tables(), &mc.args@[k]),
                ),
        ensures
            final(self).grown_from(*old(self)),
            final(self).type_table() == known_call_table(old(self).tables(), old(self).type_table(), mc),
            answers(
                final(self).type_table(),
                r,
                type_term(old(self).tables(), &Expression::MethodCall(*mc)),
            ),
    {
        if mc.is_console_write_line() {
            return Ok(Some(self.types.void_ty()));
        }
        let class_decl = self.receiver_rule(mc, target)?;
        let method_decl = match class_decl.find_method_any(mc.method_name.as_str()) {
            Some(md) => md,
            None => {
                return Err(CompileError::UnresolvedName);
            },
        };
        let param_tys = self.param_types(&method_decl.params)?;
        let ghost table = self.types@;
        let ghost expected = type_term(old(self).tables(), &Expression::MethodCall(*mc));
        proof {
            assert forall|k: int| 0 <= k < args@.len() implies answers(
                table,
                Ok::<Option<TypeId>, CompileError>(#[trigger] args@[k]),
                type_term(self.tables(), &mc.args@[k]),
            ) by {
                if args@[k] is Some {
                    lemma_extends_denotes(table, old(self).types@, args@[k].unwrap());
                }
            }
        }
        let ghost goal = known_call_table(old(self).tables(), old(self).type_table(), mc);
        proof {
            assert(expected == call_term(self.tables(), mc, method_decl));
        }
        let mut i: usize = 0;
        while i < args.len()
            invariant
                i <= args@.len(),
                args@.len() == mc.args@.len(),
                self.grown_from(*old(self)),
                self.types@ == table,
                goal == known_call_table(old(self).tables(), old(self).type_table(), mc),
                goal == (if args_typed(self.tables(), mc.args@, 0) is Ok
                    && method_decl.params@.len() == mc.args@.len() && args_agree(
                    self.tables(),
                    method_decl.params@,
                    mc.args@,
                    0,
                ) {
                    table_after(table, method_decl.return_ty, self.tables().classes_by_name)
                } else {
                    table
                }),
                params_resolved(self.tables(), method_decl.params@, 0) is Ok,
                expected == call_term(self.tables(), mc, method_decl),
                expected == type_term(old(self).tables(), &Expression::MethodCall(*mc)),
                forall|k: int|
                    0 <= k < args@.len() ==> answers(
                        table,
                        Ok::<Option<TypeId>, CompileError>(#[trigger] args@[k]),
                        type_term(self.tables(), &mc.args@[k]),
                    ),
                forall|k: int| 0 <= k < i ==> (#[trigger] args@[k]) is Some,
                args_typed(self.tables(), mc.args@, i as int) == args_typed(
                    self.tables(),
                    mc.args@,
                    0,
                ),
            decreases args@.len() - i,
        {
            assert(answers(
                table,
                Ok::<Option<TypeId>, CompileError>(args@[i as int]),
                type_term(self.tables(), &mc.args@[i as int]),
            ));
            assert(operand_term(self.tables(), &mc.args@[i as int]) is Ok <==> args@[i as int]
                is Some);
            if args[i].is_none() {
                return Err(CompileError::UnresolvedName);
            }
            i = i + 1;
        }
        if param_tys.len() != args.len() {
            return Err(CompileError::ArityMismatch);
        }
        proof {
            assert forall|j: int| 0 <= j < args@.len() implies (#[trigger] args@[j]) is Some
                && valid_id(table, args@[j].unwrap()) && denotes(table, args@[j].unwrap())
                == operand_term(self.tables(), &mc.args@[j]).unwrap() by {
                assert(answers(
                    table,
                    Ok::<Option<TypeId>, CompileError>(args@[j]),
                    type_term(self.tables(), &mc.args@[j]),
                ));
            }
        }
        let mut k: usize = 0;
        while k < param_tys.len()
            invariant
                k <= param_tys@.len(),
                self.grown_from(*old(self)),
                goal == known_call_table(old(self).tables(), old(self).type_table(), mc),
                goal == (if args_agree(self.tables(), method_decl.params@, mc.args@, 0) {
                    table_after(table, method_decl.return_ty, self.tables().classes_by_name)
                } else {
                    table
                }),
                expected == type_term(old(self).tables(), &Expression::MethodCall(*mc)),
                !args_agree(self.tables(), method_decl.params@, mc.args@, 0) ==> expected == Err::<
                    Option<TypeTerm>,
                    CompileError,
                >(CompileError::TypeMismatch),
                param_tys@.len() == args@.len(),
                param_tys@.len() == method_decl.params@.len(),
                args@.len() == mc.args@.len(),
                self.types@ == table,
                forall|j: int|
                    0 <= j < param_tys@.len() ==> valid_id(table, #[trigger] param_tys@[j])
                        && denotes(table, param_tys@[j]) == resolve(
                        method_decl.params@[j].ty,
                        self.tables().classes_by_name,
                    ).unwrap(),
                forall|j: int|
                    0 <= j < args@.len() ==> (#[trigger] args@[j]) is Some && valid_id(
                        table,
                        args@[j].unwrap(),
                    ) && denotes(table, args@[j].unwrap()) == operand_term(
                        self.tables(),
                        &mc.args@[j],
                    ).unwrap(),
                args_agree(self.tables(), method_decl.params@, mc.args@, k as int) == args_agree(
                    self.tables(),
                    method_decl.params@,
                    mc.args@,
                    0,
                ),
            decreases param_tys@.len() - k,
        {
            let arg_ty = match args[k] {
                Some(ty) => ty,
                None => {
                    return Err(CompileError::UnresolvedName);
                },
            };
            proof {
                lemma_unifies_terms(table, param_tys@[k as int], arg_ty);
            }
            if !self.types.unify(param_tys[k], arg_ty) {
                return Err(CompileError::TypeMismatch);
            }
            k = k + 1;
        }
        let id = self.types.get_from_ast_ty(&method_decl.return_ty, &self.classes_by_name)?;
        proof {
            let last = self.types@;
            assert forall|i: int| 0 <= i < old(self).types@.len() implies #[trigger] last[i] == old(
                self,
            ).types@[i] by {
                assert(table[i] == old(self).types@[i]);
            }
        }
        Ok(Some(id))
    }

    /// The types of the parameters `params`, in order.
    fn param_types(&mut self, params: &'a Vec<VarDecl>) -> (r: Result<Vec<TypeId>, CompileError>)
        requires
            old(self).wf(),
        ensures
            final(self).grown_from(*old(self)),
            final(self).type_table() == params_table(
                old(self).tables(),
                old(self).type_table(),
                params@,
                0,
            ),
            match params_resolved(old(self).tables(), params@, 0) {
                Ok(_) => r matches Ok(tys) && tys@.len() == params@.len() && forall|k: int|
                    0 <= k < tys@.len() ==> valid_id(final(self).type_table(), #[trigger] tys@[k])
                        && denotes(final(self).type_table(), tys@[k]) == resolve(
                        params@[k].ty,
                        old(self).tables().classes_by_name,
                    ).unwrap(),
                Err(err) => r matches Err(e) && e == err,
            },
    {
        let mut tys: Vec<TypeId> = Vec::new();
        let mut i: usize = 0;
        while i < params.len()
            invariant
                i <= params.len(),
                tys@.len() == i,
                self.grown_from(*old(self)),
                params_table(self.tables(), self.type_table(), params@, i as int)
                    == params_table(old(self).tables(), old(self).type_table(), params@, 0),
                params_resolved(self.tables(), params@, i as int) == params_resolved(
                    old(self).tables(),
                    params@,
                    0,
                ),
                forall|k: int|
                    0 <= k < i ==> valid_id(self.type_table(), #[trigger] tys@[k]) && denotes(
                        self.type_table(),
                        tys@[k],
                    ) == resolve(params@[k].ty, self.tables().classes_by_name).unwrap(),
            decreases params.len() - i,
        {
            let ghost before = self.types@;
            let ty = self.types.get_from_ast_ty(&params[i].ty, &self.classes_by_name)?;
            proof {
                let table = self.types@;
                assert forall|k: int| 0 <= k < i implies valid_id(table, #[trigger] tys@[k])
                    && denotes(table, tys@[k]) == resolve(
                    params@[k].ty,
                    self.tables().classes_by_name,
                ).unwrap() by {
                    lemma_extends_denotes(table, before, tys@[k]);
                }
                assert forall|j: int| 0 <= j < old(self).types@.len() implies #[trigger] table[j]
                    == old(self).types@[j] by {
                    assert(before[j] == old(self).types@[j]);
                }
            }
            tys.push(ty);
            i = i + 1;
        }
        Ok(tys)
    }

    /// The types of the arguments `args`, in order.
    fn arg_types(&mut self, args: &'a Vec<Expression>) -> (r: Result<Vec<TypeId>, CompileError>)
        requires
            old(self).wf(),
        ensures
            final(self).grown_from(*old(self)),
            final(self).type_table() == args_table(old(self).tables(), old(self).type_table(), args@, 0),
            match args_typed(old(self).tables(), args@, 0) {
                Ok(_) => r matches Ok(tys) && tys@.len() == args@.len() && forall|k: int|
                    0 <= k < tys@.len() ==> valid_id(final(self).type_table(), #[trigger] tys@[k])
                        && denotes(final(self).type_table(), tys@[k]) == operand_term(
                        old(self).tables(),
                        &args@[k],
                    ).unwrap(),
                Err(err) => r matches Err(e) && e == err,
            },
        decreases args,
    {
        let mut tys: Vec<TypeId> = Vec::new();
        let mut i: usize = 0;
        while i < args.len()
            invariant
                i <= args.len(),
                tys@.len() == i,
                self.grown_from(*old(self)),
                args_typed(self.tables(), args@, i as int) == args_typed(
                    old(self).tables(),
                    args@,
                    0,
                ),
                args_table(self.tables(), self.type_table(), args@, i as int) == args_table(
                    old(self).tables(),
                    old(self).type_table(),
                    args@,
                    0,
                ),
                forall|k: int|
                    0 <= k < i ==> valid_id(self.type_table(), #[trigger] tys@[k]) && denotes(
                        self.type_table(),
                        tys@[k],
                    ) == operand_term(self.tables(), &args@[k]).unwrap(),
            decreases args.len() - i,
        {
            let ghost before = self.types@;
            let ty = self.operand_type(&args[i])?;
            proof {
                let table = self.types@;
                assert forall|k: int| 0 <= k < i implies valid_id(table, #[trigger] tys@[k])
                    && denotes(table, tys@[k]) == operand_term(self.tables(), &args@[k]).unwrap() by {
                    lemma_extends_denotes(table, before, tys@[k]);
                }
                assert forall|j: int| 0 <= j < old(self).types@.len() implies #[trigger] table[j]
                    == old(self).types@[j] by {
                    assert(before[j] == old(self).types@[j]);
                }
            }
            tys.push(ty);
            i = i + 1;
        }
        Ok(tys)
    }

    fn method_call_type(&mut self, mc: &'a MethodCall) -> (r: Result<Option<TypeId>, CompileError>)
        requires
            old(self).wf(),
        ensures
            final(self).grown_from(*old(self)),
            final(self).type_table() == typing_table(
                old(self).tables(),
                old(self).type_table(),
                &Expression::MethodCall(*mc),
            ),
            answers(
                final(self).type_table(),
                r,
                type_term(old(self).tables(), &Expression::MethodCall(*mc)),
            ),
        decreases mc, 1int,
    {
        if mc.is_console_write_line() {
            return Ok(Some(self.types.void_ty()));
        }
        let (class_decl, _) = self.receiver(mc)?;
        let ghost t1 = self.types@;
        let method_decl = match class_decl.find_method_any(mc.method_name.as_str()) {
            Some(md) => md,
            None => {
                return Err(CompileError::UnresolvedName);
            },
        };
        let ghost goal = typing_table(
            old(self).tables(),
            old(self).type_table(),
            &Expression::MethodCall(*mc),
        );
        proof {
            assert(goal == call_table(self.tables(), t1, mc, method_decl));
        }
        let param_tys = self.param_types(&method_decl.params)?;
        let ghost t2 = self.types@;
        let arg_tys = self.arg_types(&mc.args)?;
        let ghost t3 = self.types@;
        proof {
            assert forall|k: int| 0 <= k < param_tys@.len() implies valid_id(
                t3,
                #[trigger] param_tys@[k],
            ) && denotes(t3, param_tys@[k]) == resolve(
                method_decl.params@[k].ty,
                self.tables().classes_by_name,
            ).unwrap() by {
                lemma_extends_denotes(t3, t2, param_tys@[k]);
            }
        }
        if param_tys.len() != arg_tys.len() {
            return Err(CompileError::ArityMismatch);
        }
        let ghost expected = type_term(old(self).tables(), &Expression::MethodCall(*mc));
        proof {
            assert forall|i: int| 0 <= i < old(self).types@.len() implies #[trigger] t3[i] == old(
                self,
            ).types@[i] by {
                assert(t1[i] == old(self).types@[i]);
                assert(t2[i] == t1[i]);
                assert(t3[i] == t2[i]);
            }
            assert(expected == call_term(self.tables(), mc, method_decl));
        }
        let mut k: usize = 0;
        while k < param_tys.len()
            invariant
                k <= param_tys@.len(),
                self.grown_from(*old(self)),
                goal == typing_table(
                    old(self).tables(),
                    old(self).type_table(),
                    &Expression::MethodCall(*mc),
                ),
                goal == (if args_agree(self.tables(), method_decl.params@, mc.args@, 0) {
                    table_after(t3, method_decl.return_ty, self.tables().classes_by_name)
                } else {
                    t3
                }),
                !args_agree(self.tables(), method_decl.params@, mc.args@, 0) ==> expected == Err::<
                    Option<TypeTerm>,
                    CompileError,
                >(CompileError::TypeMismatch),
                expected == type_term(old(self).tables(), &Expression::MethodCall(*mc)),
                param_tys@.len() == arg_tys@.len(),
                param_tys@.len() == method_decl.params@.len(),
                arg_tys@.len() == mc.args@.len(),
                self.wf(),
                self.types@ == t3,
                forall|j: int|
                    0 <= j < param_tys@.len() ==> valid_id(t3, #[trigger] param_tys@[j]) && denotes(
                        t3,
                        param_tys@[j],
                    ) == resolve(method_decl.params@[j].ty, self.tables().classes_by_name).unwrap(),
                forall|j: int|
                    0 <= j < arg_tys@.len() ==> valid_id(t3, #[trigger] arg_tys@[j]) && denotes(
                        t3,
                        arg_tys@[j],
                    ) == operand_term(self.tables(), &mc.args@[j]).unwrap(),
                args_agree(self.tables(), method_decl.params@, mc.args@, k as int) == args_agree(
                    self.tables(),
                    method_decl.params@,
                    mc.args@,
                    0,
                ),
            decreases param_tys@.len() - k,
        {
            proof {
                lemma_unifies_terms(t3, param_tys@[k as int], arg_tys@[k as int]);
            }
            if !self.types.unify(param_tys[k], arg_tys[k]) {
                return Err(CompileError::TypeMismatch);
            }
            k = k + 1;
        }
        let id = self.types.get_from_ast_ty(&method_decl.return_ty, &self.classes_by_name)?;
        proof {
            let table = self.types@;
            assert forall|i: int| 0 <= i < old(self).types@.len() implies #[trigger] table[i] == old(
                self,
            ).types@[i] by {
                assert(t3[i] == old(self).types@[i]);
            }
        }
        Ok(Some(id))
    }

    /// The type of the expression `e`.
    pub fn expr_type(&mut self, e: &'a Expression) -> (r: Result<Option<TypeId>, CompileError>)
        requires
            old(self).wf(),
        ensures
            final(self).grown_from(*old(self)),
            final(self).type_table() == typing_table(old(self).tables(), old(self).type_table(), e),
            answers(final(self).type_table(), r, type_term(old(self).tables(), e)),
        decreases e, 0int,
    {
        match e {
            Expression::BinaryOp(x) => self.binary_op_type(x),
            Expression::FieldAccess(x) => self.field_access_type(x),
            Expression::Literal(x) => self.literal_type(x),
            Expression::MethodCall(x) => self.method_call_type(x),
            Expression::New(x) => self.new_type(x),
            Expression::Identifier(x) => self.identifier_type(x),
            Expression::This(x) => self.this_type(x),
        }
    }

    /// The type of the expression at `node`.
    fn node_type(&mut self, node: Node<'a>) -> (r: Result<Option<TypeId>, CompileError>)
        requires
            old(self).wf(),
        ensures
            final(self).grown_from(*old(self)),
            final(self).type_table() == node_table(old(self).tables(), old(self).type_table(), node),
            answers(final(self).type_table(), r, node_term(old(self).tables(), node)),
    {
        match node {
            Node::BinaryOp(x) => self.binary_op_type(x),
            Node::FieldAccess(x) => self.field_access_type(x),
            Node::Literal(x) => self.literal_type(x),
            Node::MethodCall(x) => self.method_call_type(x),
            Node::New(x) => self.new_type(x),
            Node::Identifier(x) => self.identifier_type(x),
            Node::This(x) => self.this_type(x),
            _ => Err(CompileError::UnknownNode),
        }
    }

    /// Keeps the answer `ty` to the question about the type of the
    /// expression labelled `label`.
    fn remember_type(&mut self, label: u32, ty: Option<TypeId>)
        requires
            old(self).wf(),
            answers(
                old(self).type_table(),
                Ok::<Option<TypeId>, CompileError>(ty),
                label_term(old(self).tables(), label),
            ),
        ensures
            final(self).grown_from(*old(self)),
            final(self).type_table() == old(self).type_table(),
            final(self).kept_types() == old(self).kept_types().insert(label, ty),
    {
        let ghost table = self.types@;
        proof {
            assert forall|l: u32| #[trigger] self.expr_memo@.contains_key(l) implies answers(
                table,
                Ok::<Option<TypeId>, CompileError>(self.expr_memo@[l]),
                label_term(self.tables(), l),
            ) by {
                if self.expr_memo@[l] is Some {
                    lemma_extends_denotes(table, self.memo_table@, self.expr_memo@[l].unwrap());
                }
            }
        }
        self.expr_memo.insert(label, ty);
        self.memo_table = Ghost(table);
    }

    /// The type of the expression labelled `expr`; none for an identifier
    /// that refers to no variable. An answer that was given once is kept
    /// and given again without being computed again.
    pub fn query_expr_type(&mut self, expr: labels::Expression) -> (r: Result<
        Option<TypeId>,
        CompileError,
    >)
        requires
            old(self).wf(),
        ensures
            final(self).grown_from(*old(self)),
            final(self).type_table() == (if old(self).kept_types().contains_key(expr.0.0) {
                old(self).type_table()
            } else {
                label_table(old(self).tables(), old(self).type_table(), expr.0.0)
            }),
            answers(final(self).type_table(), r, label_term(old(self).tables(), expr.0.0)),
            r matches Ok(ty) ==> final(self).kept_types().contains_key(expr.0.0)
                && final(self).kept_types()[expr.0.0] == ty,
    {
        match self.expr_memo.get(&expr.0.0) {
            Some(known) => {
                let known: Option<TypeId> = *known;
                proof {
                    if known is Some {
                        lemma_extends_denotes(self.types@, self.memo_table@, known.unwrap());
                    }
                }
                return Ok(known);
            },
            None => {},
        }
        let node = match self.nodes.get(&expr.0.0) {
            Some(n) => *n,
            None => {
                return Err(CompileError::UnknownNode);
            },
        };
        let ty = self.node_type(node)?;
        self.remember_type(expr.0.0, ty);
        Ok(ty)
    }

    /// The declaration of the field that the access labelled `var_use`
    /// reaches: the first field of that name in the class of the target. An
    /// answer that was given once is kept.
    pub fn query_field(&mut self, var_use: labels::VarUse) -> (r: Result<
        labels::VarDecl,
        CompileError,
    >)
        requires
            old(self).wf(),
        ensures
            final(self).grown_from(*old(self)),
            final(self).type_table() == (if old(self).kept_fields().contains_key(var_use.0.0) {
                old(self).type_table()
            } else {
                field_query_table(old(self).tables(), old(self).type_table(), var_use.0.0)
            }),
            r == (match field_at(old(self).tables(), var_use.0.0) {
                Ok(l) => Ok::<labels::VarDecl, CompileError>(labels::VarDecl(l)),
                Err(err) => Err::<labels::VarDecl, CompileError>(err),
            }),
            r matches Ok(l) ==> final(self).kept_fields().contains_key(var_use.0.0)
                && final(self).kept_fields()[var_use.0.0] == l.0,
    {
        match self.field_memo.get(&var_use.0.0) {
            Some(known) => {
                return Ok(known.assert_as_var_decl());
            },
            None => {},
        }
        let fa = match self.nodes.get(&var_use.0.0) {
            Some(Node::FieldAccess(fa)) => *fa,
            _ => {
                return Err(CompileError::UnknownNode);
            },
        };
        let target_ty = self.operand_type(&fa.target)?;
        let target_decl = self.class_of_type(target_ty)?;
        match target_decl.find_field(fa.field_name.as_str()) {
            Some(l) => {
                self.field_memo.insert(var_use.0.0, l);
                Ok(l.assert_as_var_decl())
            },
            None => Err(CompileError::UnresolvedName),
        }
    }

    /// The declaration of the method that the call labelled `method_use`
    /// calls. Where the target of the call has a type, this is the first
    /// instance method of that name in the class of the target; where it
    /// has none, the target names a class, and this is the first static
    /// method of that name in it. An answer that was given once is kept.
    pub fn query_method_decl(&mut self, method_use: labels::MethodUse) -> (r: Result<
        labels::MethodDecl,
        CompileError,
    >)
        requires
            old(self).wf(),
        ensures
            final(self).grown_from(*old(self)),
            final(self).type_table() == (if old(self).kept_methods().contains_key(method_use.0.0) {
                old(self).type_table()
            } else {
                method_query_table(old(self).tables(), old(self).type_table(), method_use.0.0)
            }),
            r == (match method_at(old(self).tables(), method_use.0.0) {
                Ok(l) => Ok::<labels::MethodDecl, CompileError>(labels::MethodDecl(l)),
                Err(err) => Err::<labels::MethodDecl, CompileError>(err),
            }),
            r matches Ok(l) ==> final(self).kept_methods().contains_key(method_use.0.0)
                && final(self).kept_methods()[method_use.0.0] == l.0,
    {
        match self.method_memo.get(&method_use.0.0) {
            Some(known) => {
                return Ok(known.assert_as_method_decl());
            },
            None => {},
        }
        let mc = match self.nodes.get(&method_use.0.0) {
            Some(Node::MethodCall(mc)) => *mc,
            _ => {
                return Err(CompileError::UnknownNode);
            },
        };
        let (target_decl, is_static) = self.receiver(mc)?;
        match target_decl.find_method(is_static, mc.method_name.as_str()) {
            Some(l) => {
                self.method_memo.insert(method_use.0.0, l);
                Ok(l.assert_as_method_decl())
            },
            None => Err(CompileError::UnresolvedName),
        }
    }

    /// The types of the parameters of the method declared at `method`, in
    /// order.
    pub fn query_param_types(&mut self, method: labels::MethodDecl) -> (r: Result<
        Vec<TypeId>,
        CompileError,
    >)
        requires
            old(self).wf(),
        ensures
            final(self).grown_from(*old(self)),
            match method_decl_at(old(self).tables(), method.0.0) {
                Some(md) => match params_resolved(old(self).tables(), md.params@, 0) {
                    Ok(_) => r matches Ok(tys) && tys@.len() == md.params@.len() && forall|k: int|
                        0 <= k < tys@.len() ==> valid_id(
                            final(self).type_table(),
                            #[trigger] tys@[k],
                        ) && denotes(final(self).type_table(), tys@[k]) == resolve(
                            md.params@[k].ty,
                            old(self).tables().classes_by_name,
                        ).unwrap(),
                    Err(err) => r matches Err(e) && e == err,
                },
                None => r matches Err(e) && e == CompileError::UnknownNode,
            },
            final(self).type_table() == (match method_decl_at(old(self).tables(), method.0.0) {
                Some(md) => params_table(
                    old(self).tables(),
                    old(self).type_table(),
                    md.params@,
                    0,
                ),
                None => old(self).type_table(),
            }),
    {
        let md = match self.nodes.get(&method.0.0) {
            Some(Node::MethodDecl(md)) => *md,
            _ => {
                return Err(CompileError::UnknownNode);
            },
        };
        self.param_types(&md.params)
    }

    /// The declared type of the variable, parameter or field declared at
    /// `identifier`.
    pub fn query_var_type(&mut self, identifier: labels::VarDecl) -> (r: Result<
        TypeId,
        CompileError,
    >)
        requires
            old(self).wf(),
        ensures
            final(self).grown_from(*old(self)),
            answers_type(
                final(self).type_table(),
                r,
                declared_type_at(old(self).tables(), identifier.0.0),
            ),
            final(self).type_table() == (match written_type_at(
                old(self).tables(),
                identifier.0.0,
            ) {
                Some(ty) => table_after(
                    old(self).type_table(),
                    ty,
                    old(self).tables().classes_by_name,
                ),
                None => old(self).type_table(),
            }),
    {
        let node = match self.nodes.get(&identifier.0.0) {
            Some(n) => *n,
            None => {
                return Err(CompileError::UnknownNode);
            },
        };
        match node {
            Node::VarDecl(vd) => self.resolve_type(&vd.ty),
            Node::FieldDecl(fd) => self.resolve_type(&fd.ty),
            _ => Err(CompileError::UnknownNode),
        }
    }

    /// The declared return type of the method declared at `method`.
    pub fn query_return_type(&mut self, method: labels::MethodDecl) -> (r: Result<
        TypeId,
        CompileError,
    >)
        requires
            old(self).wf(),
        ensures
            final(self).grown_from(*old(self)),
            answers_type(
                final(self).type_table(),
                r,
                return_type_at(old(self).tables(), method.0.0),
            ),
            final(self).type_table() == (match method_decl_at(old(self).tables(), method.0.0) {
                Some(md) => table_after(
                    old(self).type_table(),
                    md.return_ty,
                    old(self).tables().classes_by_name,
                ),
                None => old(self).type_table(),
            }),
    {
        let md = match self.nodes.get(&method.0.0) {
            Some(Node::MethodDecl(md)) => *md,
            _ => {
                return Err(CompileError::UnknownNode);
            },
        };
        self.resolve_type(&md.return_ty)
    }

    /// The table of types, to enter types into.
    pub fn types_mut(&mut self) -> (r: &mut TypeMap)
        ensures
            *r == old(self).type_map(),
            r@ == old(self).type_table(),
            old(self).wf() ==> r.wf(),
            final(self).tables() == old(self).tables(),
            final(self).type_map() == *final(r),
            final(self).type_table() == final(r)@,
            old(self).wf() && final(r).wf() && extends(final(r)@, old(self).type_table())
                ==> final(self).wf(),
    {
        &mut self.types
    }

    /// Gives up the engine for its table of types.
    pub fn into_types(self) -> (r: TypeMap)
        ensures
            r == self.type_map(),
            r@ == self.type_table(),
            self.wf() ==> r.wf(),
    {
        self.types
    }
}

} // verus!
