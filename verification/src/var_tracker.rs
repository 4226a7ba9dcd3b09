//! The numbering of the variables of one method.

use std::collections::HashMap;
use vstd::prelude::*;
use crate::ast::Label;
use crate::ir::VarId;
use crate::labels;

verus! {

broadcast use vstd::std_specs::hash::group_hash_axioms;

/// The numbering at some point: the slots of the stack frame taken so far,
/// each with the declaration it belongs to, and the id of each declaration.
/// A slot without a declaration holds the receiver.
pub struct Scope {
    pub slots: Seq<Option<Label>>,
    pub vars: Map<u32, VarId>,
}

impl Scope {
    /// The numbering in which no slot is taken.
    pub open spec fn empty() -> Scope {
        Scope { slots: Seq::empty(), vars: Map::empty() }
    }

    /// The numbering after the next slot is kept for the receiver.
    pub open spec fn with_this(self) -> Scope {
        Scope { slots: self.slots.push(None), ..self }
    }

    /// The numbering after the declaration labelled `label` takes the next
    /// slot.
    pub open spec fn with_var(self, label: Label) -> Scope {
        Scope {
            slots: self.slots.push(Some(label)),
            vars: self.vars.insert(label.0, VarId(self.slots.len() as usize)),
        }
    }

    /// Every id that was given names a slot that was taken for the
    /// declaration that has the id.
    pub open spec fn wf(self) -> bool {
        &&& self.slots.len() <= usize::MAX
        &&& forall|l: u32| #[trigger]
            self.vars.contains_key(l) ==> self.vars[l].0 < self.slots.len()
                && self.slots[self.vars[l].0 as int] == Some(Label(l))
    }
}

/// Gives the variables of a method their ids: the slots of the stack frame,
/// counted from 0 in the order in which the variables are declared.
pub struct VarTracker {
    slots: Vec<Option<Label>>,
    vars: HashMap<u32, VarId>,
}

impl View for VarTracker {
    type V = Scope;

    closed spec fn view(&self) -> Scope {
        Scope { slots: self.slots@, vars: self.vars@ }
    }
}

impl VarTracker {
    pub fn new() -> (r: VarTracker)
        ensures
            r@ == Scope::empty(),
            r@.wf(),
    {
        VarTracker { slots: Vec::new(), vars: HashMap::new() }
    }

    /// Forgets every variable.
    pub fn reset(&mut self)
        ensures
            final(self)@ == Scope::empty(),
            final(self)@.wf(),
    {
        self.slots.clear();
        self.vars.clear();
    }

    /// Keeps the next slot for the receiver.
    pub fn reserve_this(&mut self)
        requires
            old(self)@.wf(),
        ensures
            final(self)@ == old(self)@.with_this(),
            final(self)@.wf(),
    {
        self.slots.push(None);
        assert(self.slots@.len() == self.slots.len());
    }

    /// Gives the declaration `var_decl` the next slot.
    pub fn var_decl(&mut self, var_decl: labels::VarDecl)
        requires
            old(self)@.wf(),
        ensures
            final(self)@ == old(self)@.with_var(var_decl.0),
            final(self)@.wf(),
    {
        let id: usize = self.slots.len();
        self.slots.push(Some(var_decl.0));
        assert(self.slots@.len() == self.slots.len());
        self.vars.insert(var_decl.0.0, VarId(id));
    }

    /// The id of the declaration `var_decl`, if it has one.
    pub fn get_var_id(&self, var_decl: labels::VarDecl) -> (r: Option<VarId>)
        ensures
            r == (if self@.vars.contains_key(var_decl.0.0) {
                Some(self@.vars[var_decl.0.0])
            } else {
                None
            }),
    {
        match self.vars.get(&var_decl.0.0) {
            Some(id) => Some(*id),
            None => None,
        }
    }
}

impl Default for VarTracker {
    fn default() -> (r: VarTracker)
        ensures
            r@ == Scope::empty(),
    {
        VarTracker::new()
    }
}

} // verus!
