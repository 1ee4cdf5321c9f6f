use std::collections::HashMap;
use vstd::prelude::*;

use crate::hir::NodeId;
use crate::resolve::def::{Def, DefId, LocalId};
use crate::types::interner::TypeInterner;
use crate::types::ty::{TyId, TyKind};

verus! {

broadcast use vstd::std_specs::hash::group_hash_axioms;

/// What resolution found, by syntax-tree node (keyed by node index): the type of each
/// node, what each identifier refers to, the definition or local each declaration
/// introduces, and the qualified path of each path to an item.
pub struct ResolutionContext {
    /// The type id that stands for a type that could not be resolved.
    pub error_id: TyId,
    /// Stores the resolved `Ty`s
    pub tys_by_node: HashMap<usize, TyId>,
    /// Stores the resolved `Def`s (local or item definitions) of identifiers.
    pub name_resolutions: HashMap<usize, Def>,
    /// The node of each item definition, by definition index.
    pub def_ids: Vec<NodeId>,
    pub defs_by_node: HashMap<usize, DefId>,
    /// The assigned [LocalId] for `let` statements.
    pub locals_by_node: HashMap<usize, LocalId>,
    pub qualified_paths: HashMap<usize, Vec<Def>>,
}

impl ResolutionContext {
    /// An empty context whose error type is `error_id`.
    pub fn new(error_id: TyId) -> (r: Self)
        ensures
            r.error_id == error_id,
            r.tys_by_node@ == Map::<usize, TyId>::empty(),
            r.name_resolutions@ == Map::<usize, Def>::empty(),
            r.def_ids@ == Seq::<NodeId>::empty(),
            r.defs_by_node@ == Map::<usize, DefId>::empty(),
            r.locals_by_node@ == Map::<usize, LocalId>::empty(),
            r.qualified_paths@ == Map::<usize, Vec<Def>>::empty(),
    {
        ResolutionContext {
            error_id,
            tys_by_node: HashMap::new(),
            name_resolutions: HashMap::new(),
            def_ids: Vec::new(),
            defs_by_node: HashMap::new(),
            locals_by_node: HashMap::new(),
            qualified_paths: HashMap::new(),
        }
    }

    /// The type of node `id`, or the error type where none was resolved.
    pub fn ty_id_of(&self, id: NodeId) -> (r: TyId)
        ensures
            r == (if self.tys_by_node@.contains_key(id.0) {
                self.tys_by_node@[id.0]
            } else {
                self.error_id
            }),
    {
        match self.tys_by_node.get(&id.0) {
            Some(t) => *t,
            None => self.error_id,
        }
    }

    /// The kind of the type of node `id`.
    pub fn ty_of<'a>(&self, id: NodeId, interner: &'a TypeInterner) -> (r: &'a TyKind)
        requires
            0 <= self.ty_id_of_spec(id).index() < interner@.len(),
        ensures
            r@ == interner@[self.ty_id_of_spec(id).index()],
    {
        interner.get(self.ty_id_of(id))
    }

    /// The type of node `id`, or the error type (see [Self::ty_id_of]).
    pub open spec fn ty_id_of_spec(&self, id: NodeId) -> TyId {
        if self.tys_by_node@.contains_key(id.0) {
            self.tys_by_node@[id.0]
        } else {
            self.error_id
        }
    }

    /// What identifier `id` refers to, or [Def::Error] where it was not resolved.
    pub fn get_name_res(&self, id: NodeId) -> (r: Def)
        ensures
            r == (if self.name_resolutions@.contains_key(id.0) {
                self.name_resolutions@[id.0]
            } else {
                Def::Error
            }),
    {
        match self.name_resolutions.get(&id.0) {
            Some(d) => *d,
            None => Def::Error,
        }
    }

    /// Whether `id` is the error type.
    #[inline]
    pub fn is_error(&self, id: TyId) -> (r: bool)
        ensures
            r == (id == self.error_id),
    {
        id == self.error_id
    }
}

} // verus!
