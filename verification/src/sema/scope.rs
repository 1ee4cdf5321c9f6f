use std::collections::HashMap;
use vstd::prelude::*;

use crate::hir::{HirId, PackageId};
use crate::resolve::def::DefId;
use crate::symbol::Symbol;

verus! {

broadcast use vstd::std_specs::hash::group_hash_axioms;

/// The id of a scope: its index in the [ScopeCtx] that created it.
#[derive(Debug, Clone, Copy, PartialEq, Eq, Hash, Structural)]
pub struct ScopeId(usize);

impl ScopeId {
    /// The index of the scope in its context.
    pub closed spec fn index(&self) -> int {
        self.0 as int
    }
}

/// One scope: the definitions it binds, keyed by symbol index, and its parent.
#[derive(Debug)]
pub struct Scope {
    pub id: ScopeId,
    pub definitions: HashMap<usize, DefId>,
    pub parent: Option<ScopeId>,
}

/// The mathematical form of a [Scope].
#[verifier::ext_equal]
pub struct SpecScope {
    pub defs: Map<usize, DefId>,
    pub parent: Option<int>,
}

impl View for Scope {
    type V = SpecScope;

    open spec fn view(&self) -> SpecScope {
        SpecScope {
            defs: self.definitions@,
            parent: match self.parent {
                Some(p) => Some(p.index()),
                None => None,
            },
        }
    }
}

/// The mathematical form of a [ScopeCtx]: the scopes by index, the top-level scope of
/// each package and the scope attached to each node, all by index.
#[verifier::ext_equal]
pub struct SpecScopeCtx {
    pub scopes: Seq<SpecScope>,
    pub top_levels: Map<usize, int>,
    pub attached: Map<usize, int>,
}

impl SpecScopeCtx {
    /// Every parent comes before its child, and every top-level scope exists.
    pub open spec fn wf(self) -> bool {
        &&& forall|i: int| 0 <= i < self.scopes.len() ==> ((#[trigger] self.scopes[i]).parent matches Some(p) ==> 0 <= p < i)
        &&& forall|k: usize| #[trigger] self.top_levels.contains_key(k) ==> 0 <= self.top_levels[k] < self.scopes.len()
    }

    /// What `sym` refers to from scope `s`: its binding in `s`, or else what it refers
    /// to from the parent of `s`.
    pub open spec fn resolves(self, s: int, sym: usize) -> Option<DefId>
        decreases s,
    {
        if 0 <= s < self.scopes.len() {
            if self.scopes[s].defs.contains_key(sym) {
                Some(self.scopes[s].defs[sym])
            } else {
                match self.scopes[s].parent {
                    Some(p) => if 0 <= p < s {
                        self.resolves(p, sym)
                    } else {
                        None
                    },
                    None => None,
                }
            }
        } else {
            None
        }
    }

    /// The context with `sym` bound to `d` in scope `s`.
    pub open spec fn register(self, s: int, sym: usize, d: DefId) -> SpecScopeCtx {
        SpecScopeCtx {
            scopes: self.scopes.update(s, SpecScope { defs: self.scopes[s].defs.insert(sym, d), parent: self.scopes[s].parent }),
            ..self
        }
    }

    /// The context with a new, empty scope under `parent` at the end.
    pub open spec fn push_scope(self, parent: Option<int>) -> SpecScopeCtx {
        SpecScopeCtx {
            scopes: self.scopes.push(SpecScope { defs: Map::empty(), parent }),
            ..self
        }
    }

    /// The context with scope `s` attached to node `h`.
    pub open spec fn attach(self, s: int, h: usize) -> SpecScopeCtx {
        SpecScopeCtx { attached: self.attached.insert(h, s), ..self }
    }
}

/// Two contexts that agree on the scopes up to `s` resolve every name from `s` alike.
pub proof fn lemma_resolves_agree(a: SpecScopeCtx, b: SpecScopeCtx, s: int, sym: usize)
    requires
        0 <= s < a.scopes.len(),
        s < b.scopes.len(),
        forall|j: int| 0 <= j <= s ==> #[trigger] a.scopes[j] == b.scopes[j],
    ensures
        a.resolves(s, sym) == b.resolves(s, sym),
    decreases s,
{
    assert(a.scopes[s] == b.scopes[s]);
    if !a.scopes[s].defs.contains_key(sym) {
        if let Some(p) = a.scopes[s].parent {
            if 0 <= p < s {
                lemma_resolves_agree(a, b, p, sym);
            }
        }
    }
}

/// The scopes of a compilation, with the top-level scope of each package and the scope
/// of each function body.
#[derive(Debug)]
pub struct ScopeCtx {
    scopes: Vec<Scope>,
    top_level_scopes: HashMap<usize, ScopeId>,
    hir_scopes: HashMap<usize, ScopeId>,
}

impl View for ScopeCtx {
    type V = SpecScopeCtx;

    closed spec fn view(&self) -> SpecScopeCtx {
        SpecScopeCtx {
            scopes: self.scopes@.map_values(|s: Scope| s@),
            top_levels: self.top_level_scopes@.map_values(|i: ScopeId| i.index()),
            attached: self.hir_scopes@.map_values(|i: ScopeId| i.index()),
        }
    }
}

impl Default for ScopeCtx {
    /// A context with no scopes.
    fn default() -> (r: Self)
        ensures
            r.wf(),
            r@.scopes == Seq::<SpecScope>::empty(),
            r@.top_levels == Map::<usize, int>::empty(),
            r@.attached == Map::<usize, int>::empty(),
    {
        let r = ScopeCtx { scopes: Vec::new(), top_level_scopes: HashMap::new(), hir_scopes: HashMap::new() };
        assert(r@.scopes =~= Seq::<SpecScope>::empty());
        assert(r@.top_levels =~= Map::<usize, int>::empty());
        assert(r@.attached =~= Map::<usize, int>::empty());
        r
    }
}

impl Scope {
    /// The parent of this scope, if it has one.
    pub fn parent<'a>(&'a self, ctx: &'a ScopeCtx) -> (r: Option<&'a Scope>)
        requires
            self.parent matches Some(p) ==> 0 <= p.index() < ctx@.scopes.len(),
        ensures
            self.parent is None ==> r is None,
            self.parent matches Some(p) ==> (r matches Some(s) && s@ == ctx@.scopes[p.index()]),
            ctx.wf() ==> (self.parent matches Some(p) ==> (r matches Some(s) && s.id == p)),
    {
        match self.parent {
            Some(p) => Some(ctx.scope(p)),
            None => None,
        }
    }
}

impl ScopeCtx {
    /// Each scope knows its own index, and the view is well formed.
    pub closed spec fn wf(&self) -> bool {
        &&& self@.wf()
        &&& forall|i: int| 0 <= i < self.scopes@.len() ==> (#[trigger] self.scopes@[i]).id.index() == i
    }

    /// The view of a well-formed context is well formed.
    pub proof fn lemma_wf_view(&self)
        requires
            self.wf(),
        ensures
            self@.wf(),
    {
    }

    proof fn lemma_view_len(&self)
        ensures
            self@.scopes.len() == self.scopes@.len(),
            forall|i: int| 0 <= i < self.scopes@.len() ==> #[trigger] self@.scopes[i] == self.scopes@[i]@,
    {
    }

    fn create_scope_and_register(&mut self, parent: Option<ScopeId>) -> (r: ScopeId)
        requires
            old(self).wf(),
            parent matches Some(p) ==> 0 <= p.index() < old(self)@.scopes.len(),
            old(self)@.scopes.len() < usize::MAX,
        ensures
            final(self).wf(),
            r.index() == old(self)@.scopes.len(),
            final(self)@ == old(self)@.push_scope(match parent {
                Some(p) => Some(p.index()),
                None => None,
            }),
    {
        let id = ScopeId(self.scopes.len());
        let scope = Scope { id, definitions: HashMap::new(), parent };
        self.scopes.push(scope);
        proof {
            let pi = match parent {
                Some(p) => Some(p.index()),
                None => None::<int>,
            };
            assert(scope@.defs =~= Map::<usize, DefId>::empty());
            assert(self@.scopes =~= old(self)@.scopes.push(SpecScope { defs: Map::empty(), parent: pi }));
            assert(self@.top_levels =~= old(self)@.top_levels);
            assert(self@.attached =~= old(self)@.attached);
            assert(self@ == old(self)@.push_scope(pi));
        }
        id
    }

    /// Binds `symbol` to `def_id` in scope `scope_id`, giving back what it was bound to
    /// there before.
    pub fn register(&mut self, scope_id: ScopeId, symbol: Symbol, def_id: DefId) -> (r: Option<DefId>)
        requires
            old(self).wf(),
            0 <= scope_id.index() < old(self)@.scopes.len(),
        ensures
            final(self).wf(),
            final(self)@ == old(self)@.register(scope_id.index(), symbol.key(), def_id),
            r == (if old(self)@.scopes[scope_id.index()].defs.contains_key(symbol.key()) {
                Some(old(self)@.scopes[scope_id.index()].defs[symbol.key()])
            } else {
                None
            }),
            final(self)@.resolves(scope_id.index(), symbol.key()) == Some(def_id),
    {
        let i = scope_id.0;
        let mut scope = self.scopes.remove(i);
        let r = scope.definitions.insert(symbol.as_index(), def_id);
        self.scopes.insert(i, scope);
        proof {
            let s = scope_id.index();
            let want = old(self)@.register(s, symbol.key(), def_id);
            assert(self.scopes@ =~= old(self).scopes@.update(s, scope));
            assert(self@.scopes =~= want.scopes);
            assert(self@.top_levels =~= want.top_levels);
            assert(self@.attached =~= want.attached);
        }
        r
    }

    /// Creates a scope under `parent`.
    pub fn enter_scope(&mut self, parent: ScopeId) -> (r: ScopeId)
        requires
            old(self).wf(),
            0 <= parent.index() < old(self)@.scopes.len(),
            old(self)@.scopes.len() < usize::MAX,
        ensures
            final(self).wf(),
            r.index() == old(self)@.scopes.len(),
            final(self)@ == old(self)@.push_scope(Some(parent.index())),
            forall|sym: usize| #[trigger] final(self)@.resolves(r.index(), sym) == old(self)@.resolves(parent.index(), sym),
            forall|s: int, sym: usize| 0 <= s < old(self)@.scopes.len() ==> #[trigger] final(self)@.resolves(s, sym) == old(self)@.resolves(s, sym),
    {
        let r = self.create_scope_and_register(Some(parent));
        proof {
            assert forall|s: int, sym: usize| 0 <= s < old(self)@.scopes.len() implies #[trigger] self@.resolves(s, sym) == old(self)@.resolves(s, sym) by {
                lemma_resolves_agree(self@, old(self)@, s, sym);
            }
            assert forall|sym: usize| #[trigger] self@.resolves(r.index(), sym) == old(self)@.resolves(parent.index(), sym) by {
                lemma_resolves_agree(self@, old(self)@, parent.index(), sym);
            }
        }
        r
    }

    /// Creates the top-level scope of package `package_id`.
    pub fn enter_top_level_scope(&mut self, package_id: PackageId) -> (r: ScopeId)
        requires
            old(self).wf(),
            old(self)@.scopes.len() < usize::MAX,
        ensures
            final(self).wf(),
            r.index() == old(self)@.scopes.len(),
            final(self)@ == (SpecScopeCtx {
                top_levels: old(self)@.top_levels.insert(package_id.0, r.index()),
                ..old(self)@.push_scope(None)
            }),
    {
        let id = self.create_scope_and_register(None);
        self.top_level_scopes.insert(package_id.0, id);
        proof {
            let mid = old(self)@.push_scope(None);
            assert(self@.top_levels =~= mid.top_levels.insert(package_id.0, id.index()));
            assert(self@.scopes =~= mid.scopes);
            assert(self@.attached =~= mid.attached);
        }
        id
    }

    /// The top-level scope of package `package_id`, if it has one.
    pub fn top_level_scope(&self, package_id: PackageId) -> (r: Option<&Scope>)
        requires
            self.wf(),
        ensures
            !self@.top_levels.contains_key(package_id.0) ==> r is None,
            self@.top_levels.contains_key(package_id.0) ==> (r matches Some(s)
                && s@ == self@.scopes[self@.top_levels[package_id.0]]
                && s.id.index() == self@.top_levels[package_id.0]),
    {
        match self.top_level_scopes.get(&package_id.0) {
            Some(s) => {
                assert(self@.top_levels.contains_key(package_id.0));
                Some(self.scope(*s))
            },
            None => None,
        }
    }

    /// The scope attached to node `hir_id`, if there is one.
    pub fn hir_scope(&self, hir_id: HirId) -> (r: Option<&Scope>)
        requires
            self.wf(),
            self@.attached.contains_key(hir_id.0) ==> 0 <= self@.attached[hir_id.0] < self@.scopes.len(),
        ensures
            !self@.attached.contains_key(hir_id.0) ==> r is None,
            self@.attached.contains_key(hir_id.0) ==> (r matches Some(s) && s@ == self@.scopes[self@.attached[hir_id.0]]),
    {
        match self.hir_scope_id(hir_id) {
            Some(scope_id) => Some(self.scope(scope_id)),
            None => None,
        }
    }

    /// The id of the scope attached to node `hir_id`, if there is one.
    pub fn hir_scope_id(&self, hir_id: HirId) -> (r: Option<ScopeId>)
        ensures
            !self@.attached.contains_key(hir_id.0) ==> r is None,
            self@.attached.contains_key(hir_id.0) ==> (r matches Some(s) && s.index() == self@.attached[hir_id.0]),
    {
        match self.hir_scopes.get(&hir_id.0) {
            Some(s) => Some(*s),
            None => None,
        }
    }

    /// Attaches scope `scope_id` to node `hir_id`.
    pub fn attach_scope(&mut self, scope_id: ScopeId, hir_id: HirId)
        requires
            old(self).wf(),
        ensures
            final(self).wf(),
            final(self)@ == old(self)@.attach(scope_id.index(), hir_id.0),
    {
        self.hir_scopes.insert(hir_id.0, scope_id);
        proof {
            assert(self@.attached =~= old(self)@.attached.insert(hir_id.0, scope_id.index()));
            assert(self@.scopes =~= old(self)@.scopes);
            assert(self@.top_levels =~= old(self)@.top_levels);
        }
    }

    /// The scope with id `scope_id`.
    pub fn scope(&self, scope_id: ScopeId) -> (r: &Scope)
        requires
            0 <= scope_id.index() < self@.scopes.len(),
        ensures
            r@ == self@.scopes[scope_id.index()],
            self.wf() ==> r.id == scope_id,
    {
        proof {
            self.lemma_view_len();
        }
        &self.scopes[scope_id.0]
    }

    /// The scope with id `scope_id`, for changing it in place.
    pub fn scope_mut(&mut self, scope_id: ScopeId) -> (r: &mut Scope)
        requires
            0 <= scope_id.index() < old(self)@.scopes.len(),
        ensures
            r@ == old(self)@.scopes[scope_id.index()],
            final(self)@ == (SpecScopeCtx {
                scopes: old(self)@.scopes.update(scope_id.index(), final(r)@),
                ..old(self)@
            }),
    {
        proof {
            old(self).lemma_view_len();
        }
        &mut self.scopes[scope_id.0]
    }

    /// What `sym` refers to from scope `scope`: the binding in the nearest scope on the
    /// way up through the parents that binds it.
    pub fn lookup(&self, scope: ScopeId, sym: Symbol) -> (r: Option<DefId>)
        requires
            self.wf(),
            0 <= scope.index() < self@.scopes.len(),
        ensures
            r == self@.resolves(scope.index(), sym.key()),
    {
        let key = sym.as_index();
        let mut cur = scope;
        loop
            invariant
                self.wf(),
                key == sym.key(),
                0 <= cur.index() < self@.scopes.len(),
                self@.resolves(cur.index(), key) == self@.resolves(scope.index(), key),
            decreases cur.index(),
        {
            let current = self.scope(cur);
            match current.definitions.get(&key) {
                Some(def) => {
                    return Some(*def);
                },
                None => {},
            }
            match current.parent {
                Some(p) => {
                    assert(self@.scopes[cur.index()].parent == Some(p.index()));
                    cur = p;
                },
                None => {
                    return None;
                },
            }
        }
    }
}

} // verus!
