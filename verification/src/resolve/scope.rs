use std::collections::HashMap;
use vstd::prelude::*;

use crate::resolve::def::{Def, DefId, LocalId};
use crate::symbol::Symbol;

verus! {

broadcast use vstd::std_specs::hash::group_hash_axioms;

/// The definitions named by `path`, in order: the `Some` entries of the path.
pub open spec fn path_defs(path: Seq<Option<DefId>>) -> Seq<Def>
    decreases path.len(),
{
    if path.len() == 0 {
        Seq::empty()
    } else {
        let rest = path_defs(path.drop_last());
        match path.last() {
            Some(d) => rest.push(Def::Def(d)),
            None => rest,
        }
    }
}

/// The innermost of `scopes` (the last one first) that binds `sym`, with the binding.
pub open spec fn lookup_in(scopes: Seq<Map<usize, Def>>, sym: usize) -> Option<(int, Def)>
    decreases scopes.len(),
{
    if scopes.len() == 0 {
        None
    } else if scopes.last().contains_key(sym) {
        Some(((scopes.len() - 1) as int, scopes.last()[sym]))
    } else {
        lookup_in(scopes.drop_last(), sym)
    }
}

/// After binding a name in the innermost scope, looking the name up finds that binding there.
pub proof fn law_lookup_after_register(scopes: Seq<Map<usize, Def>>, k: usize, d: Def)
    requires
        scopes.len() > 0,
    ensures
        lookup_in(scopes.update(scopes.len() - 1, scopes.last().insert(k, d)), k) == Some(((scopes.len() - 1) as int, d)),
{
    let after = scopes.update(scopes.len() - 1, scopes.last().insert(k, d));
    assert(after.last() == scopes.last().insert(k, d));
}

/// Binding a name leaves what every other name refers to unchanged.
pub proof fn law_register_keeps_other_names(scopes: Seq<Map<usize, Def>>, k: usize, d: Def, other: usize)
    requires
        scopes.len() > 0,
        other != k,
    ensures
        lookup_in(scopes.update(scopes.len() - 1, scopes.last().insert(k, d)), other) == lookup_in(scopes, other),
{
    let after = scopes.update(scopes.len() - 1, scopes.last().insert(k, d));
    assert(after.last() == scopes.last().insert(k, d));
    assert(after.drop_last() =~= scopes.drop_last());
}

/// A fresh scope binds nothing: right after entering one, every name refers to what it
/// referred to before.
pub proof fn law_enter_keeps_lookups(scopes: Seq<Map<usize, Def>>, k: usize)
    ensures
        lookup_in(scopes.push(Map::<usize, Def>::empty()), k) == lookup_in(scopes, k),
{
    assert(scopes.push(Map::<usize, Def>::empty()).drop_last() =~= scopes);
}

/// Leaving a scope undoes entering it: the scopes, their paths and the entered path are as
/// before, whatever was bound in the scope meanwhile.
pub proof fn law_leave_undoes_enter(
    scopes: Seq<Map<usize, Def>>,
    paths: Seq<Seq<Option<DefId>>>,
    entered: Seq<Option<DefId>>,
    def: Option<DefId>,
    inner: Map<usize, Def>,
)
    ensures
        scopes.push(inner).drop_last() == scopes,
        paths.push(entered.push(def)).drop_last() == paths,
        entered.push(def).drop_last() == entered,
{
    assert(scopes.push(inner).drop_last() =~= scopes);
    assert(paths.push(entered.push(def)).drop_last() =~= paths);
    assert(entered.push(def).drop_last() =~= entered);
}

/// One scope: the names it binds, and the path of definitions it lies in.
#[derive(Debug)]
pub struct Scope {
    symbols: HashMap<usize, Def>,
    absolute_path: Vec<Option<DefId>>,
}

impl Scope {
    /// The bindings, keyed by symbol index.
    pub closed spec fn bindings(&self) -> Map<usize, Def> {
        self.symbols@
    }

    /// The path of definitions the scope lies in.
    pub closed spec fn path(&self) -> Seq<Option<DefId>> {
        self.absolute_path@
    }

    /// An empty scope at `path`.
    pub fn with_path(path: Vec<Option<DefId>>) -> (r: Self)
        ensures
            r.bindings() == Map::<usize, Def>::empty(),
            r.path() == path@,
    {
        Scope { symbols: HashMap::new(), absolute_path: path }
    }

    /// The definitions of this scope's path followed by `target`.
    pub fn build_path(&self, target: Def) -> (r: Vec<Def>)
        ensures
            r@ == path_defs(self.path()).push(target),
    {
        let mut out: Vec<Def> = Vec::new();
        let mut i: usize = 0;
        while i < self.absolute_path.len()
            invariant
                0 <= i <= self.path().len(),
                out@ == path_defs(self.path().take(i as int)),
            decreases self.path().len() - i,
        {
            proof {
                assert(self.path().take(i + 1).drop_last() =~= self.path().take(i as int));
            }
            match self.absolute_path[i] {
                Some(d) => out.push(Def::Def(d)),
                None => {},
            }
            i = i + 1;
        }
        assert(self.path().take(i as int) =~= self.path());
        out.push(target);
        out
    }

    /// What this scope binds `sym` to, if anything.
    #[inline]
    pub fn lookup(&self, sym: Symbol) -> (r: Option<Def>)
        ensures
            self.bindings().contains_key(sym.key()) ==> r == Some(self.bindings()[sym.key()]),
            !self.bindings().contains_key(sym.key()) ==> r is None,
    {
        match self.symbols.get(&sym.as_index()) {
            Some(d) => Some(*d),
            None => None,
        }
    }

    /// Whether some name of this scope is bound to `def`.
    pub fn binds(&self, def: Def) -> (r: bool)
        ensures
            r == self.bindings().values().contains(def),
    {
        proof {
            assert(vstd::std_specs::hash::obeys_key_model::<usize>());
        }
        let mut found = false;
        for v in it: self.symbols.values()
            invariant
                it.seq().unref().to_set() == self.bindings().values(),
                found == (exists|j: int| 0 <= j < it.index() && it.seq().unref()[j] == def),
                it.index() == it.seq().len() ==> found == self.bindings().values().contains(def),
        {
            if *v == def {
                found = true;
            }
            proof {
                assert(it.seq().unref()[it.index()] == *v);
            }
        }
        found
    }

    fn insert(&mut self, sym: Symbol, def: Def)
        ensures
            final(self).bindings() == old(self).bindings().insert(sym.key(), def),
            final(self).path() == old(self).path(),
    {
        self.symbols.insert(sym.as_index(), def);
    }
}

/// A stack of scopes above a top-level scope, with the path of definitions entered.
#[derive(Debug)]
pub struct ScopeStack {
    top: Scope,
    stack: Vec<Scope>,
    /// The travelled [DefId]s
    path: Vec<Option<DefId>>,
}

impl ScopeStack {
    /// The bindings of all scopes, the top-level one first and the innermost last.
    pub closed spec fn scopes(&self) -> Seq<Map<usize, Def>> {
        seq![self.top.bindings()] + self.stack@.map_values(|s: Scope| s.bindings())
    }

    /// The paths of all scopes, in the same order.
    pub closed spec fn scope_paths(&self) -> Seq<Seq<Option<DefId>>> {
        seq![self.top.path()] + self.stack@.map_values(|s: Scope| s.path())
    }

    /// The path of definitions entered.
    pub closed spec fn entered(&self) -> Seq<Option<DefId>> {
        self.path@
    }

    /// Each entered scope lies at the path entered up to it.
    pub open spec fn wf(&self) -> bool {
        &&& self.scopes().len() == self.scope_paths().len()
        &&& self.scopes().len() == self.entered().len() + 1
        &&& forall|k: int| 1 <= k < self.scope_paths().len() ==> #[trigger] self.scope_paths()[k] == self.entered().take(k)
    }

    /// An empty stack: a top-level scope with nothing in it.
    pub fn new() -> (r: Self)
        ensures
            r.wf(),
            r.scopes() == seq![Map::<usize, Def>::empty()],
            r.scope_paths() == seq![Seq::<Option<DefId>>::empty()],
            r.entered() == Seq::<Option<DefId>>::empty(),
    {
        let r = ScopeStack { top: Scope::with_path(Vec::new()), stack: Vec::new(), path: Vec::new() };
        assert(r.scopes() =~= seq![Map::<usize, Def>::empty()]);
        assert(r.scope_paths() =~= seq![Seq::<Option<DefId>>::empty()]);
        r
    }

    /// Enters a new, empty scope for `def` (or for an anonymous block).
    pub fn enter(&mut self, def: Option<DefId>)
        requires
            old(self).wf(),
        ensures
            final(self).wf(),
            final(self).entered() == old(self).entered().push(def),
            final(self).scopes() == old(self).scopes().push(Map::<usize, Def>::empty()),
            final(self).scope_paths() == old(self).scope_paths().push(old(self).entered().push(def)),
    {
        self.path.push(def);
        let mut copy: Vec<Option<DefId>> = Vec::new();
        let mut i: usize = 0;
        while i < self.path.len()
            invariant
                0 <= i <= self.path@.len(),
                copy@ == self.path@.take(i as int),
            decreases self.path@.len() - i,
        {
            copy.push(self.path[i]);
            i = i + 1;
            assert(copy@ =~= self.path@.take(i as int));
        }
        assert(copy@ =~= self.path@);
        self.stack.push(Scope::with_path(copy));
        proof {
            assert(self.scopes() =~= old(self).scopes().push(Map::<usize, Def>::empty()));
            assert(self.scope_paths() =~= old(self).scope_paths().push(old(self).entered().push(def)));
            assert forall|k: int| 1 <= k < self.scope_paths().len() implies #[trigger] self.scope_paths()[k] == self.entered().take(k) by {
                if k < old(self).scope_paths().len() {
                    assert(old(self).scope_paths()[k] == old(self).entered().take(k));
                    assert(self.entered().take(k) =~= old(self).entered().take(k));
                } else {
                    assert(self.entered().take(k) =~= self.entered());
                }
            }
        }
    }

    /// Leaves the innermost scope; on the top-level scope alone, does nothing.
    pub fn leave(&mut self)
        requires
            old(self).wf(),
        ensures
            final(self).wf(),
            old(self).entered().len() > 0 ==> final(self).entered() == old(self).entered().drop_last()
                && final(self).scopes() == old(self).scopes().drop_last()
                && final(self).scope_paths() == old(self).scope_paths().drop_last(),
            old(self).entered().len() == 0 ==> final(self).entered() == old(self).entered()
                && final(self).scopes() == old(self).scopes()
                && final(self).scope_paths() == old(self).scope_paths(),
    {
        self.path.pop();
        self.stack.pop();
        proof {
            if old(self).entered().len() > 0 {
                assert(self.scopes() =~= old(self).scopes().drop_last());
                assert(self.scope_paths() =~= old(self).scope_paths().drop_last());
                assert forall|k: int| 1 <= k < self.scope_paths().len() implies #[trigger] self.scope_paths()[k] == self.entered().take(k) by {
                    assert(old(self).scope_paths()[k] == old(self).entered().take(k));
                    assert(self.entered().take(k) =~= old(self).entered().take(k));
                }
            } else {
                assert(self.scopes() =~= old(self).scopes());
                assert(self.scope_paths() =~= old(self).scope_paths());
            }
        }
    }

    /// The innermost scope.
    pub fn current(&self) -> (r: &Scope)
        requires
            self.wf(),
        ensures
            r.bindings() == self.scopes().last(),
            r.path() == self.scope_paths().last(),
    {
        if self.stack.len() > 0 {
            &self.stack[self.stack.len() - 1]
        } else {
            &self.top
        }
    }

    /// The innermost scope, for changing it in place.
    pub fn current_mut(&mut self) -> (r: &mut Scope)
        requires
            old(self).wf(),
        ensures
            r.bindings() == old(self).scopes().last(),
            r.path() == old(self).scope_paths().last(),
            final(self).entered() == old(self).entered(),
            final(self).scopes() == old(self).scopes().update(old(self).scopes().len() - 1, final(r).bindings()),
            final(self).scope_paths() == old(self).scope_paths().update(old(self).scopes().len() - 1, final(r).path()),
    {
        if self.stack.len() > 0 {
            let n = self.stack.len() - 1;
            &mut self.stack[n]
        } else {
            &mut self.top
        }
    }

    fn lookup_get_scope(&self, sym: Symbol) -> (r: Option<(&Scope, Def)>)
        requires
            self.wf(),
        ensures
            lookup_in(self.scopes(), sym.key()) is None ==> r is None,
            lookup_in(self.scopes(), sym.key()) matches Some((k, d)) ==> r matches Some((s, e))
                && e == d && s.path() == self.scope_paths()[k],
    {
        let ghost key = sym.key();
        let mut i: usize = self.stack.len();
        assert(self.scopes().take(i + 1) =~= self.scopes());
        while i > 0
            invariant
                self.wf(),
                key == sym.key(),
                0 <= i <= self.stack@.len(),
                lookup_in(self.scopes(), key) == lookup_in(self.scopes().take(i + 1), key),
            decreases i,
        {
            let ghost pre = self.scopes().take(i + 1);
            assert(pre.last() == self.stack@[i - 1].bindings());
            assert(pre.drop_last() =~= self.scopes().take(i as int));
            match self.stack[i - 1].lookup(sym) {
                Some(d) => {
                    return Some((&self.stack[i - 1], d));
                },
                None => {},
            }
            i = i - 1;
        }
        assert(self.scopes().take(1).drop_last() =~= Seq::<Map<usize, Def>>::empty());
        assert(self.scopes().take(1) =~= seq![self.top.bindings()]);
        assert(self.scope_paths()[0] == self.top.path());
        assert(seq![self.top.bindings()].drop_last() =~= Seq::<Map<usize, Def>>::empty());
        assert(lookup_in(Seq::<Map<usize, Def>>::empty(), sym.key()) is None);
        match self.top.lookup(sym) {
            Some(d) => Some((&self.top, d)),
            None => None,
        }
    }

    /// What `sym` refers to in the innermost scope that binds it.
    pub fn lookup(&self, sym: Symbol) -> (r: Option<Def>)
        requires
            self.wf(),
        ensures
            r == match lookup_in(self.scopes(), sym.key()) {
                Some((_, d)) => Some(d),
                None => None::<Def>,
            },
    {
        match self.lookup_get_scope(sym) {
            Some((_, def)) => Some(def),
            None => None,
        }
    }

    /// What `sym` refers to, with the definitions of the path of the scope that binds it
    /// followed by that binding.
    pub fn lookup_path(&self, sym: Symbol) -> (r: Option<(Def, Vec<Def>)>)
        requires
            self.wf(),
        ensures
            lookup_in(self.scopes(), sym.key()) is None ==> r is None,
            lookup_in(self.scopes(), sym.key()) matches Some((k, d)) ==> r matches Some((e, p))
                && e == d && p@ == path_defs(self.scope_paths()[k]).push(d),
    {
        match self.lookup_get_scope(sym) {
            Some((scope, def)) => Some((def, scope.build_path(def))),
            None => None,
        }
    }

    /// Whether some scope of the stack binds a name to `def`: whether `def` can be named
    /// from the current scope.
    pub fn is_in_scope(&self, def: &Def) -> (r: bool)
        requires
            self.wf(),
        ensures
            r == exists|k: int| 0 <= k < self.scopes().len() && #[trigger] self.scopes()[k].values().contains(*def),
    {
        if self.top.binds(*def) {
            assert(self.scopes()[0] == self.top.bindings());
            return true;
        }
        let mut i: usize = 0;
        while i < self.stack.len()
            invariant
                0 <= i <= self.stack@.len(),
                self.scopes() == seq![self.top.bindings()] + self.stack@.map_values(|s: Scope| s.bindings()),
                forall|k: int| 0 <= k < i + 1 ==> !(#[trigger] self.scopes()[k].values().contains(*def)),
            decreases self.stack@.len() - i,
        {
            assert(self.scopes()[i + 1] == self.stack@[i as int].bindings());
            if self.stack[i].binds(*def) {
                return true;
            }
            i = i + 1;
        }
        false
    }

    /// Binds `sym` to local `id` in the innermost scope.
    pub fn register_local(&mut self, sym: Symbol, id: LocalId)
        requires
            old(self).wf(),
        ensures
            final(self).wf(),
            final(self).entered() == old(self).entered(),
            final(self).scope_paths() == old(self).scope_paths(),
            final(self).scopes() == old(self).scopes().update(
                old(self).scopes().len() - 1,
                old(self).scopes().last().insert(sym.key(), Def::Local(id)),
            ),
    {
        self.insert_current(sym, Def::Local(id));
    }

    /// Binds `sym` to definition `id` in the innermost scope.
    pub fn register_def(&mut self, sym: Symbol, id: DefId)
        requires
            old(self).wf(),
        ensures
            final(self).wf(),
            final(self).entered() == old(self).entered(),
            final(self).scope_paths() == old(self).scope_paths(),
            final(self).scopes() == old(self).scopes().update(
                old(self).scopes().len() - 1,
                old(self).scopes().last().insert(sym.key(), Def::Def(id)),
            ),
    {
        self.insert_current(sym, Def::Def(id));
    }

    fn insert_current(&mut self, sym: Symbol, def: Def)
        requires
            old(self).wf(),
        ensures
            final(self).wf(),
            final(self).entered() == old(self).entered(),
            final(self).scope_paths() == old(self).scope_paths(),
            final(self).scopes() == old(self).scopes().update(
                old(self).scopes().len() - 1,
                old(self).scopes().last().insert(sym.key(), def),
            ),
    {
        if self.stack.len() > 0 {
            let n = self.stack.len() - 1;
            let mut scope = self.stack.remove(n);
            scope.insert(sym, def);
            self.stack.push(scope);
        } else {
            self.top.insert(sym, def);
        }
        proof {
            assert(self.scopes() =~= old(self).scopes().update(
                old(self).scopes().len() - 1,
                old(self).scopes().last().insert(sym.key(), def),
            ));
            assert(self.scope_paths() =~= old(self).scope_paths());
        }
    }
}

impl Default for Scope {
    /// An empty scope at the empty path.
    fn default() -> (r: Self)
        ensures
            r.bindings() == Map::<usize, Def>::empty(),
            r.path() == Seq::<Option<DefId>>::empty(),
    {
        Scope::with_path(Vec::new())
    }
}

impl Default for ScopeStack {
    /// An empty stack (see [ScopeStack::new]).
    fn default() -> (r: Self)
        ensures
            r.wf(),
            r.scopes() == seq![Map::<usize, Def>::empty()],
            r.scope_paths() == seq![Seq::<Option<DefId>>::empty()],
            r.entered() == Seq::<Option<DefId>>::empty(),
    {
        ScopeStack::new()
    }
}

} // verus!
