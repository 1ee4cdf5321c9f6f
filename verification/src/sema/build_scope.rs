use vstd::prelude::*;

use crate::hir::{Item, Package};
use crate::resolve::def::DefId;
use crate::sema::scope::{ScopeCtx, SpecScopeCtx};

verus! {

/// The scopes that building adds for `items` under top-level scope `top`: each item's
/// name is bound in `top`, a later item shadowing an earlier one of the same name, and
/// each function gets a scope of its own under `top`, attached to the function's node.
pub open spec fn build_items(v: SpecScopeCtx, top: int, items: Seq<Item>) -> SpecScopeCtx
    decreases items.len(),
{
    if items.len() == 0 {
        v
    } else {
        let before = build_items(v, top, items.drop_last());
        match items.last() {
            Item::ExternFn(f) => before.register(top, f.name.key(), f.id),
            Item::Fn(f) => {
                let bound = before.register(top, f.name.key(), f.id);
                bound.push_scope(Some(top)).attach(bound.scopes.len() as int, f.hir_id.0)
            },
        }
    }
}

/// The number of functions among `items`.
pub open spec fn count_fns(items: Seq<Item>) -> nat
    decreases items.len(),
{
    if items.len() == 0 {
        0
    } else {
        count_fns(items.drop_last()) + if items.last() is Fn { 1nat } else { 0nat }
    }
}

/// The context after building the scopes of a package with id `pid` and items `items`
/// in `v`: a new top-level scope for the package, then the scopes of [build_items].
pub open spec fn build_package(v: SpecScopeCtx, pid: usize, items: Seq<Item>) -> SpecScopeCtx {
    let top = v.scopes.len() as int;
    let entered = SpecScopeCtx { top_levels: v.top_levels.insert(pid, top), ..v.push_scope(None) };
    build_items(entered, top, items)
}

/// Building keeps the scopes that were there, adds one per function, keeps the
/// context well formed and changes no top-level entry.
pub proof fn lemma_build_items_shape(v: SpecScopeCtx, top: int, items: Seq<Item>)
    requires
        v.wf(),
        0 <= top < v.scopes.len(),
    ensures
        build_items(v, top, items).wf(),
        build_items(v, top, items).scopes.len() == v.scopes.len() + count_fns(items),
        build_items(v, top, items).top_levels == v.top_levels,
        forall|j: int| 0 <= j < v.scopes.len() && j != top ==> #[trigger] build_items(v, top, items).scopes[j] == v.scopes[j],
        build_items(v, top, items).scopes[top].parent == v.scopes[top].parent,
    decreases items.len(),
{
    if items.len() > 0 {
        lemma_build_items_shape(v, top, items.drop_last());
        let before = build_items(v, top, items.drop_last());
        match items.last() {
            Item::ExternFn(f) => {},
            Item::Fn(f) => {
                let bound = before.register(top, f.name.key(), f.id);
                let pushed = bound.push_scope(Some(top));
                assert(pushed.scopes[bound.scopes.len() as int].parent == Some(top));
            },
        }
    }
}

/// After building, the top-level scope binds the name of each item to the definition of
/// the last item of that name.
pub proof fn law_build_binds_last_of_each_name(v: SpecScopeCtx, top: int, items: Seq<Item>, j: int)
    requires
        v.wf(),
        0 <= top < v.scopes.len(),
        0 <= j < items.len(),
        forall|k: int| j < k < items.len() ==> (#[trigger] items[k]).name_spec() != items[j].name_spec(),
    ensures
        build_items(v, top, items).scopes[top].defs.contains_key(items[j].name_spec().key()),
        build_items(v, top, items).scopes[top].defs[items[j].name_spec().key()] == items[j].def_spec(),
        build_items(v, top, items).resolves(top, items[j].name_spec().key()) == Some(items[j].def_spec()),
    decreases items.len(),
{
    let before = build_items(v, top, items.drop_last());
    lemma_build_items_shape(v, top, items.drop_last());
    let last = items.len() - 1;
    if j < last {
        assert forall|k: int| j < k < items.drop_last().len() implies (#[trigger] items.drop_last()[k]).name_spec() != items.drop_last()[j].name_spec() by {
            assert(items.drop_last()[k] == items[k]);
        }
        law_build_binds_last_of_each_name(v, top, items.drop_last(), j);
        assert(items[last].name_spec() != items[j].name_spec());
        assert(items[last].name_spec().key() != items[j].name_spec().key()) by {
            crate::symbol::Symbol::lemma_key_injective(items[last].name_spec(), items[j].name_spec());
        }
    }
}

/// After building, the node of each function is attached to a fresh scope right under
/// the top-level scope (that of the last function with the same node, where two share one).
pub proof fn lemma_fn_scope(v: SpecScopeCtx, top: int, items: Seq<Item>, j: int)
    requires
        v.wf(),
        0 <= top < v.scopes.len(),
        0 <= j < items.len(),
        items[j] is Fn,
    ensures
        build_items(v, top, items).attached.contains_key(items[j]->Fn_0.hir_id.0),
        top < build_items(v, top, items).attached[items[j]->Fn_0.hir_id.0] < build_items(v, top, items).scopes.len(),
        build_items(v, top, items).scopes[build_items(v, top, items).attached[items[j]->Fn_0.hir_id.0]].defs == Map::<usize, DefId>::empty(),
        build_items(v, top, items).scopes[build_items(v, top, items).attached[items[j]->Fn_0.hir_id.0]].parent == Some(top),
    decreases items.len(),
{
    let h = items[j]->Fn_0.hir_id.0;
    lemma_build_items_shape(v, top, items.drop_last());
    let last = items.len() - 1;
    match items[last] {
        Item::ExternFn(f) => {
            assert(items.drop_last()[j] == items[j]);
            lemma_fn_scope(v, top, items.drop_last(), j);
        },
        Item::Fn(g) => {
            if g.hir_id.0 != h {
                assert(items.drop_last()[j] == items[j]);
                lemma_fn_scope(v, top, items.drop_last(), j);
            }
        },
    }
}

/// After building, the scope of each function sees from its body exactly what the
/// top-level scope sees, for every name.
pub proof fn law_function_scope_sees_top_level(v: SpecScopeCtx, top: int, items: Seq<Item>, j: int, sym: usize)
    requires
        v.wf(),
        0 <= top < v.scopes.len(),
        0 <= j < items.len(),
        items[j] is Fn,
    ensures
        build_items(v, top, items).attached.contains_key(items[j]->Fn_0.hir_id.0),
        build_items(v, top, items).resolves(build_items(v, top, items).attached[items[j]->Fn_0.hir_id.0], sym)
            == build_items(v, top, items).resolves(top, sym),
{
    lemma_fn_scope(v, top, items, j);
}

/// After building, the top-level scope binds the name of every item.
pub proof fn lemma_top_binds_all(v: SpecScopeCtx, top: int, items: Seq<Item>, j: int)
    requires
        v.wf(),
        0 <= top < v.scopes.len(),
        0 <= j < items.len(),
    ensures
        build_items(v, top, items).scopes[top].defs.contains_key(items[j].name_spec().key()),
    decreases items.len(),
{
    lemma_build_items_shape(v, top, items.drop_last());
    if j < items.len() - 1 {
        assert(items.drop_last()[j] == items[j]);
        lemma_top_binds_all(v, top, items.drop_last(), j);
    }
}

/// No more functions than items.
pub proof fn lemma_count_fns_le(items: Seq<Item>)
    ensures
        count_fns(items) <= items.len(),
    decreases items.len(),
{
    if items.len() > 0 {
        lemma_count_fns_le(items.drop_last());
    }
}

/// The pass that builds the scope tree of a package into the scope context it holds.
pub struct BuildScopePass {
    pub scope_ctx: ScopeCtx,
}

impl BuildScopePass {
    /// A pass that builds into `scope_ctx`.
    pub fn new(scope_ctx: ScopeCtx) -> (r: Self)
        ensures
            r.scope_ctx == scope_ctx,
    {
        BuildScopePass { scope_ctx }
    }

    /// Builds the scopes of `package`: its top-level scope, binding each item's name
    /// there, and a scope for each function, attached to the function's node. Gives back
    /// `false`, and changes nothing, where the package's scopes are built already.
    pub fn run(&mut self, package: &Package) -> (built: bool)
        requires
            old(self).scope_ctx.wf(),
            old(self).scope_ctx@.scopes.len() + package.items@.len() < usize::MAX,
        ensures
            final(self).scope_ctx.wf(),
            built == !old(self).scope_ctx@.top_levels.contains_key(package.id.0),
            !built ==> final(self).scope_ctx@ == old(self).scope_ctx@,
            built ==> final(self).scope_ctx@ == build_package(old(self).scope_ctx@, package.id.0, package.items@),
    {
        if self.scope_ctx.top_level_scope(package.id).is_some() {
            return false;
        }
        let ghost start = self.scope_ctx@;
        let top_level = self.scope_ctx.enter_top_level_scope(package.id);
        let ghost top = top_level.index();
        let ghost entered = self.scope_ctx@;
        proof {
            self.scope_ctx.lemma_wf_view();
            lemma_count_fns_le(package.items@);
            assert(package.items@.take(0) =~= Seq::<Item>::empty());
        }
        let mut i: usize = 0;
        while i < package.items.len()
            invariant
                self.scope_ctx.wf(),
                0 <= i <= package.items@.len(),
                top == start.scopes.len(),
                top_level.index() == top,
                entered.wf(),
                entered.scopes.len() == top + 1,
                start.scopes.len() + package.items@.len() < usize::MAX,
                self.scope_ctx@ == build_items(entered, top, package.items@.take(i as int)),
                count_fns(package.items@) <= package.items@.len(),
            decreases package.items@.len() - i,
        {
            let ghost prefix = package.items@.take(i as int);
            proof {
                lemma_build_items_shape(entered, top, prefix);
                lemma_count_fns_le(prefix);
                assert(package.items@.take(i + 1).drop_last() =~= prefix);
                assert(package.items@.take(i + 1).last() == package.items@[i as int]);
            }
            match &package.items[i] {
                Item::ExternFn(f) => {
                    self.scope_ctx.register(top_level, f.name, f.id);
                },
                Item::Fn(function) => {
                    self.scope_ctx.register(top_level, function.name, function.id);
                    let scope_id = self.scope_ctx.enter_scope(top_level);
                    self.scope_ctx.attach_scope(scope_id, function.hir_id);
                },
            }
            i = i + 1;
        }
        proof {
            assert(package.items@.take(i as int) =~= package.items@);
        }
        true
    }
}

} // verus!
