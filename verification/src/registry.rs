//! The registry of the modules of a compilation: the syntax tree of each module (none for
//! a file that could not be parsed), and the module of each absolute file path.
use slotmap::Key;
use vstd::prelude::*;

use crate::ast::Ast;

verus! {

/// The id of a module: the integer form (`KeyData::as_ffi`) of its slot-map key.
#[derive(Clone, Copy, PartialEq, Eq, Hash, Debug, Structural)]
pub struct ModuleId(pub u64);

/// The slot map that holds the syntax tree of each module.
#[verifier::external_body]
pub struct TreeSlots {
    map: slotmap::SlotMap<slotmap::DefaultKey, Option<Ast>>,
}

/// The trees that a [TreeSlots] holds, by the integer form of their keys.
pub uninterp spec fn tree_slots(slots: TreeSlots) -> Map<u64, Option<Ast>>;

/// `slotmap::SlotMap::new`: a slot map holding nothing.
#[verifier::external_body]
fn tree_slots_new() -> (r: TreeSlots)
    ensures
        (tree_slots(r) == Map::<u64, Option<Ast>>::empty()),
{
    TreeSlots { map: slotmap::SlotMap::new() }
}

/// `slotmap::SlotMap::insert`, with the key turned into its integer form
/// (`KeyData::as_ffi`). As the crate documents, the new key is not the key of any tree held
/// before, and it gives back `tree`. The call panics once the map has `u32::MAX` slots; the
/// first slot is never used, so that is ruled out below `u32::MAX - 1` trees.
#[verifier::external_body]
fn tree_slots_insert(slots: &mut TreeSlots, tree: Option<Ast>) -> (r: u64)
    requires
        tree_slots(*old(slots)).dom().finite(),
        tree_slots(*old(slots)).len() < u32::MAX - 1,
    ensures
        !tree_slots(*old(slots)).contains_key(r),
        tree_slots(*final(slots)) == tree_slots(*old(slots)).insert(r, tree),
{
    slots.map.insert(tree).data().as_ffi()
}

/// `Index<K> for slotmap::SlotMap`, with the key rebuilt from its integer form
/// (`KeyData::from_ffi`): the tree held under that key. The index panics on a key that
/// holds nothing, which `requires` rules out.
#[verifier::external_body]
fn tree_slots_get(slots: &TreeSlots, key: u64) -> (r: &Option<Ast>)
    requires
        tree_slots(*slots).contains_key(key),
    ensures
        *r == tree_slots(*slots)[key],
{
    &slots.map[slotmap::DefaultKey::from(slotmap::KeyData::from_ffi(key))]
}

/// The bijective map between absolute file paths and module ids.
#[verifier::external_body]
pub struct PathIds {
    map: bimap::BiHashMap<String, u64>,
}

/// The module id of each path that a [PathIds] holds, by the characters of the path.
pub uninterp spec fn path_ids(paths: PathIds) -> Map<Seq<char>, u64>;

/// `m` after pairing `path` with `id` in a bijective map: any pair holding `path` or `id`
/// before is removed, and the pair added.
pub open spec fn pair_inserted(m: Map<Seq<char>, u64>, path: Seq<char>, id: u64) -> Map<Seq<char>, u64> {
    Map::new(|k: Seq<char>| k == path || (m.contains_key(k) && m[k] != id), |k: Seq<char>| if k == path { id } else { m[k] })
}

/// `bimap::BiHashMap::new`: a map holding no pair.
#[verifier::external_body]
fn path_ids_new() -> (r: PathIds)
    ensures
        (path_ids(r) == Map::<Seq<char>, u64>::empty()),
{
    PathIds { map: bimap::BiHashMap::new() }
}

/// `bimap::BiHashMap::insert`: removes the pair that holds `path` and the pair that holds
/// `id`, if any, and adds the pair of the two (the pairs it hands back are dropped).
#[verifier::external_body]
fn path_ids_insert(paths: &mut PathIds, path: String, id: u64)
    ensures
        path_ids(*final(paths)) == pair_inserted(path_ids(*old(paths)), path@, id),
{
    paths.map.insert(path, id);
}

/// `bimap::BiHashMap::get_by_left`: the id paired with `path`, if any.
#[verifier::external_body]
fn path_ids_get(paths: &PathIds, path: &str) -> (r: Option<u64>)
    ensures
        r == (if path_ids(*paths).contains_key(path@) {
            Some(path_ids(*paths)[path@])
        } else {
            None
        }),
{
    paths.map.get_by_left(path).copied()
}

/// The modules of a compilation: the syntax tree of each (none where the file could not be
/// parsed), and the module of each absolute file path, one path per module.
pub struct ModuleRegistry {
    trees: TreeSlots,
    id_by_path: PathIds,
}

impl ModuleRegistry {
    /// The syntax tree of each module, by the index of its id.
    pub closed spec fn trees(&self) -> Map<u64, Option<Ast>> {
        tree_slots(self.trees)
    }

    /// The module id of each path.
    pub closed spec fn paths(&self) -> Map<Seq<char>, u64> {
        path_ids(self.id_by_path)
    }

    /// Finitely many modules are registered.
    pub open spec fn wf(&self) -> bool {
        self.trees().dom().finite()
    }

    /// A registry holding no module.
    pub fn new() -> (r: Self)
        ensures
            r.wf(),
            r.trees() == Map::<u64, Option<Ast>>::empty(),
            r.paths() == Map::<Seq<char>, u64>::empty(),
    {
        ModuleRegistry { trees: tree_slots_new(), id_by_path: path_ids_new() }
    }

    /// Adds the syntax tree `ast` of the file at `path`, giving back the fresh id of its
    /// module; the path now names that module (and a module it named before no longer has
    /// a path).
    pub fn add_ast(&mut self, path: String, ast: Ast) -> (r: ModuleId)
        requires
            old(self).wf(),
            old(self).trees().len() < u32::MAX - 1,
        ensures
            final(self).wf(),
            !old(self).trees().contains_key(r.0),
            final(self).trees() == old(self).trees().insert(r.0, Some(ast)),
            final(self).paths() == pair_inserted(old(self).paths(), path@, r.0),
    {
        let id = tree_slots_insert(&mut self.trees, Some(ast));
        path_ids_insert(&mut self.id_by_path, path, id);
        ModuleId(id)
    }

    /// Adds a module for the file at `path` that could not be parsed, giving back its fresh
    /// id; the path now names that module.
    pub fn add_failed_ast(&mut self, path: String) -> (r: ModuleId)
        requires
            old(self).wf(),
            old(self).trees().len() < u32::MAX - 1,
        ensures
            final(self).wf(),
            !old(self).trees().contains_key(r.0),
            final(self).trees() == old(self).trees().insert(r.0, None),
            final(self).paths() == pair_inserted(old(self).paths(), path@, r.0),
    {
        let id = tree_slots_insert(&mut self.trees, None);
        path_ids_insert(&mut self.id_by_path, path, id);
        ModuleId(id)
    }

    /// The module of the file at `path`, if one is registered.
    pub fn module_of(&self, path: &str) -> (r: Option<ModuleId>)
        ensures
            r == (if self.paths().contains_key(path@) {
                Some(ModuleId(self.paths()[path@]))
            } else {
                None
            }),
    {
        match path_ids_get(&self.id_by_path, path) {
            Some(id) => Some(ModuleId(id)),
            None => None,
        }
    }

    /// The syntax tree of module `id`: none where its file could not be parsed.
    pub fn tree(&self, id: ModuleId) -> (r: &Option<Ast>)
        requires
            self.trees().contains_key(id.0),
        ensures
            *r == self.trees()[id.0],
    {
        tree_slots_get(&self.trees, id.0)
    }
}

impl Default for ModuleRegistry {
    /// A registry holding no module.
    fn default() -> (r: Self)
        ensures
            r.wf(),
            r.trees() == Map::<u64, Option<Ast>>::empty(),
            r.paths() == Map::<Seq<char>, u64>::empty(),
    {
        ModuleRegistry::new()
    }
}

/// After adding a module at a path, the path names the new module, and every other path
/// keeps its module unless that was the new id: [ModuleRegistry::add_ast] (or
/// [ModuleRegistry::add_failed_ast]) followed by [ModuleRegistry::module_of].
pub proof fn law_path_names_the_added_module(m: Map<Seq<char>, u64>, path: Seq<char>, id: u64, other: Seq<char>)
    ensures
        pair_inserted(m, path, id).contains_key(path),
        pair_inserted(m, path, id)[path] == id,
        other != path && m.contains_key(other) && m[other] != id ==> pair_inserted(m, path, id).contains_key(other)
            && pair_inserted(m, path, id)[other] == m[other],
        other != path && !m.contains_key(other) ==> !pair_inserted(m, path, id).contains_key(other),
{
}

} // verus!
