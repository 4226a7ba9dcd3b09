//! The table of interned types.
//!
//! Every type that the analysis meets is entered once; from then on it is
//! known by its position, a [`TypeId`]. Two ids that the table has issued
//! are equal exactly when they stand for the same type.

use std::collections::HashMap;
use vstd::prelude::*;
use vstd::hash_map::StringHashMap;
use vstd::string::StringExecFns;
use crate::ast;
use crate::ast::Label;
use crate::error::CompileError;
use crate::labels;

verus! {

/// Position of a type in the table, or the sentinel that stands for the type
/// of `null`.
#[derive(Clone, Copy, Debug, PartialEq, Eq, Structural, Hash)]
pub struct TypeId(pub usize);

/// A type as the table stores it: the element type of an array is given by
/// its id.
#[derive(Clone, Copy, Debug, PartialEq, Eq, Structural, Hash)]
pub enum Type {
    Bool,
    Int,
    String,
    Console,
    Array(TypeId),
    Void,
    Class(labels::ClassDecl),
}

impl Type {
    /// The class that this type is, if it is one.
    pub fn class_decl(&self) -> (r: Option<labels::ClassDecl>)
        ensures
            r == (match *self {
                Type::Class(cd) => Some(cd),
                _ => None,
            }),
    {
        match self {
            Type::Class(cd) => Some(*cd),
            _ => None,
        }
    }
}

/// A type written out in full, with no reference to a table. `Any` is the
/// type of `null`; it agrees with every type.
pub enum TypeTerm {
    Int,
    String,
    Void,
    Bool,
    Console,
    Any,
    Class(Label),
    Array(Box<TypeTerm>),
}

/// The id that stands for the type of `null`.
pub open spec fn any_id() -> TypeId {
    TypeId(usize::MAX)
}

/// The ids of the types that every table starts with.
pub open spec fn int_id() -> TypeId {
    TypeId(0)
}

pub open spec fn string_id() -> TypeId {
    TypeId(1)
}

pub open spec fn void_id() -> TypeId {
    TypeId(2)
}

pub open spec fn bool_id() -> TypeId {
    TypeId(3)
}

pub open spec fn console_id() -> TypeId {
    TypeId(4)
}

/// Whether `id` is the sentinel or a position in `table`.
pub open spec fn valid_id(table: Seq<Type>, id: TypeId) -> bool {
    id == any_id() || id.0 < table.len()
}

/// Whether `ty` can be entered into `table`: an array type must name an
/// element type that `table` knows.
pub open spec fn enterable(table: Seq<Type>, ty: Type) -> bool {
    ty matches Type::Array(inner) ==> valid_id(table, inner)
}

/// What a table must satisfy: it starts with the five built-in types, an
/// array type comes after its element type, and no type occurs twice.
pub open spec fn table_wf(table: Seq<Type>) -> bool {
    &&& table.len() >= 5
    &&& table.len() <= usize::MAX
    &&& table[0] == Type::Int
    &&& table[1] == Type::String
    &&& table[2] == Type::Void
    &&& table[3] == Type::Bool
    &&& table[4] == Type::Console
    &&& forall|i: int|
        0 <= i < table.len() ==> (#[trigger] table[i] matches Type::Array(inner) ==> inner
            == any_id() || inner.0 < i)
    &&& forall|i: int, j: int|
        0 <= i < j < table.len() ==> #[trigger] table[i] != #[trigger] table[j]
}

/// The position of `ty` in `table`, if it occurs there.
pub open spec fn position(table: Seq<Type>, ty: Type) -> Option<int> {
    if exists|i: int| 0 <= i < table.len() && table[i] == ty {
        Some(choose|i: int| 0 <= i < table.len() && table[i] == ty)
    } else {
        None
    }
}

/// The type that `id` stands for in `table`, written out in full.
pub open spec fn denotes(table: Seq<Type>, id: TypeId) -> TypeTerm
    decreases id.0,
{
    if id.0 < table.len() {
        match table[id.0 as int] {
            Type::Int => TypeTerm::Int,
            Type::String => TypeTerm::String,
            Type::Void => TypeTerm::Void,
            Type::Bool => TypeTerm::Bool,
            Type::Console => TypeTerm::Console,
            Type::Class(cd) => TypeTerm::Class(cd.0),
            Type::Array(inner) => if inner.0 < id.0 {
                TypeTerm::Array(Box::new(denotes(table, inner)))
            } else {
                TypeTerm::Array(Box::new(TypeTerm::Any))
            },
        }
    } else {
        TypeTerm::Any
    }
}

/// The type that `ty` stands for when its element type, if it has one, is
/// read in `table`.
pub open spec fn term_of(table: Seq<Type>, ty: Type) -> TypeTerm {
    match ty {
        Type::Int => TypeTerm::Int,
        Type::String => TypeTerm::String,
        Type::Void => TypeTerm::Void,
        Type::Bool => TypeTerm::Bool,
        Type::Console => TypeTerm::Console,
        Type::Class(cd) => TypeTerm::Class(cd.0),
        Type::Array(inner) => TypeTerm::Array(Box::new(denotes(table, inner))),
    }
}

/// Whether two ids agree: they are equal, or one of them is the type of
/// `null`.
pub open spec fn unifies(a: TypeId, b: TypeId) -> bool {
    a == any_id() || b == any_id() || a == b
}

/// Whether two types written out in full agree.
pub open spec fn terms_unify(a: TypeTerm, b: TypeTerm) -> bool {
    a == TypeTerm::Any || b == TypeTerm::Any || a == b
}

/// Whether `old_table` is the beginning of `new_table`: every id issued
/// under the first keeps its type under the second.
pub open spec fn extends(new_table: Seq<Type>, old_table: Seq<Type>) -> bool {
    &&& old_table.len() <= new_table.len()
    &&& forall|i: int| 0 <= i < old_table.len() ==> #[trigger] new_table[i] == old_table[i]
}

/// The type that a declared type stands for, given the classes of the
/// program by name.
pub open spec fn resolve(ty: ast::Type, classes: Map<Seq<char>, &ast::ClassDecl>) -> Result<
    TypeTerm,
    CompileError,
>
    decreases ty,
{
    match ty {
        ast::Type::Array(inner) => match resolve(*inner, classes) {
            Ok(t) => Ok(TypeTerm::Array(Box::new(t))),
            Err(e) => Err(e),
        },
        ast::Type::Custom(name) => resolve_name(name@, classes),
        ast::Type::Void => Ok(TypeTerm::Void),
    }
}

/// The type that a type name stands for: one of the built-in names, or else
/// the class of that name.
pub open spec fn resolve_name(name: Seq<char>, classes: Map<Seq<char>, &ast::ClassDecl>) -> Result<
    TypeTerm,
    CompileError,
> {
    if name == "bool"@ {
        Ok(TypeTerm::Bool)
    } else if name == "int"@ {
        Ok(TypeTerm::Int)
    } else if name == "string"@ {
        Ok(TypeTerm::String)
    } else if name == "Console"@ {
        Ok(TypeTerm::Console)
    } else {
        resolve_class(name, classes)
    }
}

/// The class type of the class called `name`.
pub open spec fn resolve_class(name: Seq<char>, classes: Map<Seq<char>, &ast::ClassDecl>) -> Result<
    TypeTerm,
    CompileError,
> {
    if classes.contains_key(name) {
        Ok(TypeTerm::Class(classes[name].label))
    } else {
        Err(CompileError::UnresolvedClass)
    }
}

/// The table after `ty` is entered: the table as it was where it holds `ty`
/// already, else the table with `ty` behind it.
pub open spec fn entered(table: Seq<Type>, ty: Type) -> Seq<Type> {
    if position(table, ty) is Some {
        table
    } else {
        table.push(ty)
    }
}

/// The id that `ty` has once it is entered into `table`.
pub open spec fn id_of(table: Seq<Type>, ty: Type) -> TypeId {
    match position(table, ty) {
        Some(p) => TypeId(p as usize),
        None => TypeId(table.len() as usize),
    }
}

/// The id of the built-in type called `name`, if `name` is the name of one.
pub open spec fn built_in(name: Seq<char>) -> Option<TypeId> {
    if name == "bool"@ {
        Some(bool_id())
    } else if name == "int"@ {
        Some(int_id())
    } else if name == "string"@ {
        Some(string_id())
    } else if name == "Console"@ {
        Some(console_id())
    } else {
        None
    }
}

/// The class type of the class called `name`, as the table stores it.
pub open spec fn class_type(name: Seq<char>, classes: Map<Seq<char>, &ast::ClassDecl>) -> Type {
    Type::Class(labels::ClassDecl(classes[name].label))
}

/// The table after the class type of the class called `name` is resolved:
/// the class type is entered if there is such a class, and nothing changes
/// if there is none.
pub open spec fn table_with_class(
    table: Seq<Type>,
    name: Seq<char>,
    classes: Map<Seq<char>, &ast::ClassDecl>,
) -> Seq<Type> {
    if classes.contains_key(name) {
        entered(table, class_type(name, classes))
    } else {
        table
    }
}

/// The table after the declared type `ty` is resolved. A built-in type and
/// a type with a fault leave the table as it was; a class type is entered;
/// for an array type the element type is resolved first and the array type
/// entered then.
pub open spec fn table_after(table: Seq<Type>, ty: ast::Type, classes: Map<Seq<char>, &ast::ClassDecl>) -> Seq<
    Type,
>
    decreases ty,
{
    match ty {
        ast::Type::Array(inner) => if resolve(*inner, classes) is Ok {
            entered(
                table_after(table, *inner, classes),
                Type::Array(id_after(table, *inner, classes)),
            )
        } else {
            table
        },
        ast::Type::Custom(name) => if built_in(name@) is Some {
            table
        } else {
            table_with_class(table, name@, classes)
        },
        ast::Type::Void => table,
    }
}

/// The id of the declared type `ty` once it is resolved in `table`, where it
/// has no fault.
pub open spec fn id_after(table: Seq<Type>, ty: ast::Type, classes: Map<Seq<char>, &ast::ClassDecl>) -> TypeId
    decreases ty,
{
    match ty {
        ast::Type::Array(inner) => id_of(
            table_after(table, *inner, classes),
            Type::Array(id_after(table, *inner, classes)),
        ),
        ast::Type::Custom(name) => match built_in(name@) {
            Some(id) => id,
            None => id_of(table, class_type(name@, classes)),
        },
        ast::Type::Void => void_id(),
    }
}

/// The number under which the reverse index files `ty`.
pub open spec fn key_of(ty: Type) -> int {
    match ty {
        Type::Int => 0,
        Type::String => 1,
        Type::Void => 2,
        Type::Bool => 3,
        Type::Console => 4,
        Type::Array(inner) => 0x1_0000_0000_0000_0000 + inner.0,
        Type::Class(cd) => 0x2_0000_0000_0000_0000 + cd.0.0,
    }
}

fn key(ty: Type) -> (k: u128)
    ensures
        k == key_of(ty),
{
    match ty {
        Type::Int => 0,
        Type::String => 1,
        Type::Void => 2,
        Type::Bool => 3,
        Type::Console => 4,
        Type::Array(inner) => 0x1_0000_0000_0000_0000u128 + (inner.0 as u128),
        Type::Class(cd) => 0x2_0000_0000_0000_0000u128 + (cd.0.0 as u128),
    }
}

/// Different types are filed under different numbers.
proof fn lemma_key_injective(a: Type, b: Type)
    requires
        key_of(a) == key_of(b),
    ensures
        a == b,
{
}

/// An id that stands for the type of `null` is the sentinel.
pub proof fn lemma_denotes_any(table: Seq<Type>, id: TypeId)
    requires
        table.len() <= usize::MAX,
        valid_id(table, id),
    ensures
        denotes(table, id) == TypeTerm::Any <==> id == any_id(),
{
}

/// In a longer table an id keeps its type.
pub proof fn lemma_extends_denotes(new_table: Seq<Type>, old_table: Seq<Type>, id: TypeId)
    requires
        table_wf(old_table),
        new_table.len() <= usize::MAX,
        extends(new_table, old_table),
        valid_id(old_table, id),
    ensures
        denotes(new_table, id) == denotes(old_table, id),
        valid_id(new_table, id),
    decreases id.0,
{
    if id.0 < old_table.len() {
        assert(new_table[id.0 as int] == old_table[id.0 as int]);
        match old_table[id.0 as int] {
            Type::Array(inner) => {
                if inner.0 < id.0 {
                    lemma_extends_denotes(new_table, old_table, inner);
                }
            },
            _ => {},
        }
    }
}

/// Being the beginning of a table is transitive.
pub proof fn lemma_extends_transitive(c: Seq<Type>, b: Seq<Type>, a: Seq<Type>)
    requires
        extends(c, b),
        extends(b, a),
    ensures
        extends(c, a),
{
    assert forall|i: int| 0 <= i < a.len() implies #[trigger] c[i] == a[i] by {
        assert(b[i] == a[i]);
    }
}

/// The table is canonical: two ids that stand for the same type are the
/// same id.
pub proof fn lemma_denotes_injective(table: Seq<Type>, a: TypeId, b: TypeId)
    requires
        table_wf(table),
        valid_id(table, a),
        valid_id(table, b),
        denotes(table, a) == denotes(table, b),
    ensures
        a == b,
    decreases a.0,
{
    lemma_denotes_any(table, a);
    lemma_denotes_any(table, b);
    if a != any_id() && b != any_id() {
        let ta = table[a.0 as int];
        let tb = table[b.0 as int];
        match ta {
            Type::Array(ia) => {
                let ib = tb->Array_0;
                assert(tb is Array);
                lemma_denotes_any(table, ia);
                lemma_denotes_any(table, ib);
                if ia.0 < a.0 {
                    assert(ib.0 < b.0);
                    lemma_denotes_injective(table, ia, ib);
                }
                assert(ia == ib);
            },
            _ => {},
        }
        assert(ta == tb);
        if a.0 < b.0 {
            assert(table[a.0 as int] != table[b.0 as int]);
        }
        if b.0 < a.0 {
            assert(table[b.0 as int] != table[a.0 as int]);
        }
    }
}

/// Agreement of ids is agreement of the types they stand for.
pub proof fn lemma_unifies_terms(table: Seq<Type>, a: TypeId, b: TypeId)
    requires
        table_wf(table),
        valid_id(table, a),
        valid_id(table, b),
    ensures
        unifies(a, b) == terms_unify(denotes(table, a), denotes(table, b)),
{
    lemma_denotes_any(table, a);
    lemma_denotes_any(table, b);
    if denotes(table, a) == denotes(table, b) {
        lemma_denotes_injective(table, a, b);
    }
}

/// Agreement is symmetric and reflexive, and the type of `null` agrees with
/// every type.
pub proof fn lemma_unifies_laws(a: TypeId, b: TypeId)
    ensures
        unifies(a, b) == unifies(b, a),
        unifies(a, a),
        unifies(any_id(), b),
{
}

/// Entering the type found at an issued id gives that id back and leaves the
/// table as it was.
pub proof fn lemma_round_trip(table: Seq<Type>, id: TypeId)
    requires
        table_wf(table),
        id.0 < table.len(),
    ensures
        position(table, table[id.0 as int]) == Some(id.0 as int),
{
    let ty = table[id.0 as int];
    let p = choose|i: int| 0 <= i < table.len() && table[i] == ty;
    if p < id.0 {
        assert(table[p] != table[id.0 as int]);
    }
    if id.0 < p {
        assert(table[id.0 as int] != table[p]);
    }
}

/// The table of interned types.
pub struct TypeMap {
    types: Vec<Type>,
    ids: HashMap<u128, usize>,
}

impl View for TypeMap {
    type V = Seq<Type>;

    closed spec fn view(&self) -> Seq<Type> {
        self.types@
    }
}

impl TypeMap {
    /// The reverse index files every type of the table under its number, and
    /// nothing else.
    pub closed spec fn index_agrees(&self) -> bool {
        &&& forall|i: int|
            0 <= i < self.types@.len() ==> self.ids@.contains_key(
                #[trigger] key_of(self.types@[i]) as u128,
            ) && self.ids@[key_of(self.types@[i]) as u128] == i
        &&& forall|k: u128| #[trigger]
            self.ids@.contains_key(k) ==> self.ids@[k] < self.types@.len() && key_of(
                self.types@[self.ids@[k] as int],
            ) == k
    }

    /// The invariant of the table.
    pub open spec fn wf(&self) -> bool {
        table_wf(self@) && self.index_agrees()
    }

    /// A table that holds the five built-in types.
    pub fn new() -> (r: TypeMap)
        ensures
            r.wf(),
            r@ == seq![Type::Int, Type::String, Type::Void, Type::Bool, Type::Console],
    {
        broadcast use vstd::std_specs::hash::group_hash_axioms;

        let mut types: Vec<Type> = Vec::new();
        types.push(Type::Int);
        types.push(Type::String);
        types.push(Type::Void);
        types.push(Type::Bool);
        types.push(Type::Console);
        let mut ids: HashMap<u128, usize> = HashMap::new();
        ids.insert(0, 0);
        ids.insert(1, 1);
        ids.insert(2, 2);
        ids.insert(3, 3);
        ids.insert(4, 4);
        let r = TypeMap { types, ids };
        assert(r@ =~= seq![Type::Int, Type::String, Type::Void, Type::Bool, Type::Console]);
        r
    }

    /// The type at `id`; none for the sentinel, which stands for no type of
    /// the table, and none for an id that the table has not issued.
    pub fn get(&self, id: TypeId) -> (r: Option<Type>)
        ensures
            r == (if id.0 < self@.len() {
                Some(self@[id.0 as int])
            } else {
                None
            }),
            self.wf() && id == any_id() ==> r is None,
    {
        if id.0 < self.types.len() {
            Some(self.types[id.0])
        } else {
            None
        }
    }

    /// The id of `ty`. If the table holds `ty` already, this is its
    /// position and the table stays as it is; if not, `ty` is appended and
    /// its new position returned.
    pub fn get_id(&mut self, ty: Type) -> (id: TypeId)
        requires
            old(self).wf(),
            enterable(old(self)@, ty),
        ensures
            final(self).wf(),
            match position(old(self)@, ty) {
                Some(p) => id.0 == p && final(self)@ == old(self)@,
                None => id.0 == old(self)@.len() && final(self)@ == old(self)@.push(ty),
            },
            final(self)@ == entered(old(self)@, ty),
            id == id_of(old(self)@, ty),
            id.0 < final(self)@.len(),
            final(self)@[id.0 as int] == ty,
            extends(final(self)@, old(self)@),
            denotes(final(self)@, id) == term_of(old(self)@, ty),
    {
        broadcast use vstd::std_specs::hash::group_hash_axioms;

        let k = key(ty);
        let found = self.ids.get(&k);
        match found {
            Some(p) => {
                let p: usize = *p;
                proof {
                    lemma_key_injective(self.types@[p as int], ty);
                    lemma_round_trip(self@, TypeId(p));
                    self.lemma_term_of(TypeId(p));
                }
                TypeId(p)
            },
            None => {
                let fresh: usize = self.types.len();
                proof {
                    if exists|i: int| 0 <= i < self@.len() && self@[i] == ty {
                        let i = choose|i: int| 0 <= i < self@.len() && self@[i] == ty;
                        assert(self.ids@.contains_key(key_of(self.types@[i]) as u128));
                    }
                }
                self.types.push(ty);
                assert(self.types@.len() == self.types.len());
                self.ids.insert(k, fresh);
                proof {
                    let old_table = old(self)@;
                    let new_table = self@;
                    assert(new_table == old_table.push(ty));
                    assert forall|i: int, j: int| 0 <= i < j < new_table.len() implies new_table[i]
                        != new_table[j] by {
                        if j == fresh {
                            assert(old_table[i] == new_table[i]);
                        } else {
                            assert(old_table[i] != old_table[j]);
                        }
                    }
                    assert forall|i: int| 0 <= i < new_table.len() implies self.ids@.contains_key(
                        #[trigger] key_of(new_table[i]) as u128,
                    ) && self.ids@[key_of(new_table[i]) as u128] == i by {
                        if i < fresh {
                            assert(old_table[i] == new_table[i]);
                            assert(old(self).ids@.contains_key(key_of(old_table[i]) as u128));
                        }
                    }
                    assert forall|q: u128| #[trigger] self.ids@.contains_key(q) implies self.ids@[q]
                        < new_table.len() && key_of(new_table[self.ids@[q] as int]) == q by {
                        if q != k {
                            assert(old(self).ids@.contains_key(q));
                        }
                    }
                    assert(table_wf(new_table));
                    match ty {
                        Type::Array(inner) => {
                            if inner != any_id() {
                                lemma_extends_denotes(new_table, old_table, inner);
                            }
                        },
                        _ => {},
                    }
                }
                TypeId(fresh)
            },
        }
    }

    /// What an issued id stands for is what the type stored at it stands
    /// for.
    proof fn lemma_term_of(&self, id: TypeId)
        requires
            self.wf(),
            id.0 < self@.len(),
        ensures
            denotes(self@, id) == term_of(self@, self@[id.0 as int]),
    {
        match self@[id.0 as int] {
            Type::Array(inner) => {
                lemma_denotes_any(self@, inner);
            },
            _ => {},
        }
    }

    pub fn any_ty(&self) -> (r: TypeId)
        ensures
            r == any_id(),
    {
        TypeId(usize::MAX)
    }

    pub fn int_ty(&self) -> (r: TypeId)
        ensures
            r == int_id(),
    {
        TypeId(0)
    }

    pub fn string_ty(&self) -> (r: TypeId)
        ensures
            r == string_id(),
    {
        TypeId(1)
    }

    pub fn void_ty(&self) -> (r: TypeId)
        ensures
            r == void_id(),
    {
        TypeId(2)
    }

    pub fn bool_ty(&self) -> (r: TypeId)
        ensures
            r == bool_id(),
    {
        TypeId(3)
    }

    pub fn console_ty(&self) -> (r: TypeId)
        ensures
            r == console_id(),
    {
        TypeId(4)
    }

    /// Whether `ty1` and `ty2` agree.
    pub fn unify(&self, ty1: TypeId, ty2: TypeId) -> (r: bool)
        ensures
            r == unifies(ty1, ty2),
    {
        ty1.0 == usize::MAX || ty2.0 == usize::MAX || ty1.0 == ty2.0
    }

    /// The id of the class type of the class called `name`. The class type
    /// is entered into the table if the table does not hold it yet; nothing
    /// else is.
    pub fn get_from_class_name(&mut self, name: &str, decls: &StringHashMap<&ast::ClassDecl>) -> (r:
        Result<TypeId, CompileError>)
        requires
            old(self).wf(),
        ensures
            final(self).wf(),
            extends(final(self)@, old(self)@),
            final(self)@ == table_with_class(old(self)@, name@, decls@),
            match resolve_class(name@, decls@) {
                Ok(t) => r matches Ok(id) && id == id_of(old(self)@, class_type(name@, decls@))
                    && id.0 < final(self)@.len() && denotes(final(self)@, id) == t,
                Err(e) => r == Err::<TypeId, CompileError>(e) && final(self)@ == old(self)@,
            },
    {
        match decls.get(name) {
            Some(class) => {
                let decl = class.label.assert_as_class_decl();
                Ok(self.get_id(Type::Class(decl)))
            },
            None => Err(CompileError::UnresolvedClass),
        }
    }

    /// The id of the type that the declared type `ast_ty` stands for. The
    /// table gains the types that it needs for that and does not hold yet,
    /// and no others: none for a built-in type or where there is a fault,
    /// the class type for a class, and for an array type what the element
    /// type needs and then the array type.
    pub fn get_from_ast_ty(&mut self, ast_ty: &ast::Type, decls: &StringHashMap<&ast::ClassDecl>) -> (r:
        Result<TypeId, CompileError>)
        requires
            old(self).wf(),
        ensures
            final(self).wf(),
            extends(final(self)@, old(self)@),
            final(self)@ == table_after(old(self)@, *ast_ty, decls@),
            match resolve(*ast_ty, decls@) {
                Ok(t) => r matches Ok(id) && id == id_after(old(self)@, *ast_ty, decls@) && id.0
                    < final(self)@.len() && denotes(final(self)@, id) == t,
                Err(e) => r == Err::<TypeId, CompileError>(e) && final(self)@ == old(self)@,
            },
        decreases *ast_ty,
    {
        match ast_ty {
            ast::Type::Array(inner_ty) => {
                let inner = self.get_from_ast_ty(inner_ty, decls);
                match inner {
                    Ok(inner_id) => {
                        let ghost mid = self@;
                        let id = self.get_id(Type::Array(inner_id));
                        proof {
                            assert forall|i: int| 0 <= i < old(self)@.len() implies #[trigger] self@[i]
                                == old(self)@[i] by {
                                assert(mid[i] == old(self)@[i]);
                            }
                        }
                        Ok(id)
                    },
                    Err(e) => Err(e),
                }
            },
            ast::Type::Custom(ty_name) => {
                let bool_name = String::from_str("bool");
                let int_name = String::from_str("int");
                let string_name = String::from_str("string");
                let console_name = String::from_str("Console");
                if *ty_name == bool_name {
                    Ok(self.bool_ty())
                } else if *ty_name == int_name {
                    Ok(self.int_ty())
                } else if *ty_name == string_name {
                    Ok(self.string_ty())
                } else if *ty_name == console_name {
                    Ok(self.console_ty())
                } else {
                    self.get_from_class_name(ty_name.as_str(), decls)
                }
            },
            ast::Type::Void => Ok(self.void_ty()),
        }
    }
}

impl Default for TypeMap {
    fn default() -> (r: TypeMap)
        ensures
            r.wf(),
            r@ == seq![Type::Int, Type::String, Type::Void, Type::Bool, Type::Console],
    {
        TypeMap::new()
    }
}

} // verus!
