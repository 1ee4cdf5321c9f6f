use std::collections::HashMap;
use vstd::prelude::*;

use crate::ast::{ident_of_item, item_count, item_ident, items_count, signature_span_of, Ast, Item, ItemKind};
use crate::ast::Visibility as AstVisibility;
use crate::hir::NodeId;
use crate::resolve::def::{Def, DefId};
use crate::resolve::path_res::members_closed;
use crate::resolve::resolver::ResolutionContext;
use crate::resolve::scope::ScopeStack;
use crate::session::item::{ItemInfo, Visibility};
use crate::session::item::ItemKind as SessionItemKind;
use crate::session::Session;
use crate::span::Span;
use crate::symbol::Symbol;

verus! {

broadcast use vstd::std_specs::hash::group_hash_axioms;

/// A name defined twice in one scope ("the name is defined multiple times"): where the
/// second definition names it, and the signature of the first definition where that is
/// an item.
#[derive(Clone, Copy, Debug)]
pub struct DuplicateDefinition {
    pub file_id: usize,
    pub name: Symbol,
    pub span: Span,
    pub first_definition: Option<Span>,
}

/// The visibility of a session item for an item written with `vis`.
pub open spec fn session_vis(vis: AstVisibility) -> Visibility {
    match vis {
        AstVisibility::Private => Visibility::Private,
        AstVisibility::Public => Visibility::Public,
    }
}

/// The symbol index of the name that `item` declares.
pub open spec fn item_key(item: Item) -> usize {
    item_ident(item).sym.key()
}

/// Whether no item of `items` before index `j` declares the name that item `j` declares.
pub open spec fn first_of_its_name(items: Seq<Item>, j: int) -> bool {
    forall|i: int| 0 <= i < j ==> item_key(#[trigger] items[i]) != item_key(items[j])
}

/// Whether `later` holds every item of `earlier`, unchanged.
pub open spec fn extends(earlier: Map<u64, ItemInfo>, later: Map<u64, ItemInfo>) -> bool {
    forall|k: u64| #[trigger] earlier.contains_key(k) ==> later.contains_key(k) && later[k] == earlier[k]
}

/// The first pass of name resolution: registers each item of a file with the session and
/// binds its name in the current scope, reporting names defined twice in one scope.
pub struct FirstPass {
    pub stack: ScopeStack,
    pub sess: Session,
    pub rcx: ResolutionContext,
    pub file_id: usize,
    pub diagnostics: Vec<DuplicateDefinition>,
}

impl FirstPass {
    /// The scope stack and the session are well formed, and every definition bound in a
    /// scope is an item of the session.
    pub open spec fn inv(&self) -> bool {
        &&& self.stack.wf()
        &&& self.sess.wf()
        &&& forall|k: int, s: usize|
            0 <= k < self.stack.scopes().len() && #[trigger] self.stack.scopes()[k].contains_key(s)
                && self.stack.scopes()[k][s] is Def ==> self.sess.items().contains_key(self.stack.scopes()[k][s]->Def_0.0)
    }

    /// `next` is `prev` grown: the same file, every item registered before still there and
    /// unchanged, and the diagnostics reported before still first.
    pub open spec fn grows(prev: FirstPass, next: FirstPass) -> bool {
        &&& next.file_id == prev.file_id
        &&& extends(prev.sess.items(), next.sess.items())
        &&& prev.diagnostics@.len() <= next.diagnostics@.len()
        &&& next.diagnostics@.take(prev.diagnostics@.len() as int) == prev.diagnostics@
    }

    /// `next` is `prev` grown, with the same entered path and scope paths, and every scope
    /// but the innermost unchanged.
    pub open spec fn keeps(prev: FirstPass, next: FirstPass) -> bool {
        &&& next.inv()
        &&& Self::grows(prev, next)
        &&& next.stack.entered() == prev.stack.entered()
        &&& next.stack.scope_paths() == prev.stack.scope_paths()
        &&& next.stack.scopes().len() == prev.stack.scopes().len()
        &&& next.stack.scopes().drop_last() == prev.stack.scopes().drop_last()
    }

    /// Binds `sym` to `def_id` in the current scope, and records `def_id` as the definition
    /// of node `node_id`.
    fn register_def(&mut self, sym: Symbol, def_id: DefId, node_id: NodeId)
        requires
            old(self).stack.wf(),
        ensures
            final(self).stack.wf(),
            final(self).stack.entered() == old(self).stack.entered(),
            final(self).stack.scope_paths() == old(self).stack.scope_paths(),
            final(self).stack.scopes() == old(self).stack.scopes().update(
                old(self).stack.scopes().len() - 1,
                old(self).stack.scopes().last().insert(sym.key(), Def::Def(def_id)),
            ),
            final(self).rcx.defs_by_node@ == old(self).rcx.defs_by_node@.insert(node_id.0, def_id),
            final(self).sess == old(self).sess,
            final(self).file_id == old(self).file_id,
            final(self).diagnostics == old(self).diagnostics,
    {
        self.stack.register_def(sym, def_id);
        self.rcx.defs_by_node.insert(node_id.0, def_id);
    }

    /// What visiting `item` does, from `prev` to `next`, giving back `r` (the contract of
    /// [Self::visit_item]): a name the current scope binds already is reported, with the
    /// signature of its first definition where that is an item, and nothing else changes;
    /// otherwise the item is registered under a fresh id with its name, node, visibility,
    /// signature and kind, its name is bound to it in the current scope, its node is mapped
    /// to it, and, for a function, nothing is reported.
    pub open spec fn item_visited(prev: FirstPass, next: FirstPass, item: Item, r: Option<DefId>) -> bool
        decreases item, 1nat,
    {
        &&& Self::keeps(prev, next)
        &&& prev.stack.scopes().last().contains_key(item_key(item)) ==> {
            &&& r is None
            &&& next.stack.scopes() == prev.stack.scopes()
            &&& next.sess.items() == prev.sess.items()
            &&& next.rcx.defs_by_node@ == prev.rcx.defs_by_node@
            &&& next.diagnostics@ == prev.diagnostics@.push(
                DuplicateDefinition {
                    file_id: prev.file_id,
                    name: item_ident(item).sym,
                    span: item_ident(item).span,
                    first_definition: match prev.stack.scopes().last()[item_key(item)] {
                        Def::Def(id) => Some(prev.sess.items()[id.0].kind.signature_span_spec()),
                        _ => None,
                    },
                },
            )
        }
        &&& !prev.stack.scopes().last().contains_key(item_key(item)) ==> (r matches Some(d) && {
            let info = next.sess.items()[d.0];
            &&& !prev.sess.items().contains_key(d.0)
            &&& next.sess.items().contains_key(d.0)
            &&& info.name == item_ident(item).sym
            &&& info.id == item.id
            &&& info.vis == session_vis(item.vis)
            &&& info.kind.signature_span_spec() == signature_span_of(item)
            &&& kind_matches(info.kind, item.kind)
            &&& next.stack.scopes() == prev.stack.scopes().update(
                prev.stack.scopes().len() - 1,
                prev.stack.scopes().last().insert(item_key(item), Def::Def(d)),
            )
            &&& next.rcx.defs_by_node@.contains_key(item.id.0)
            &&& next.rcx.defs_by_node@[item.id.0] == d
            &&& members_registered(info.kind.members(), next.sess.items(), module_items(item.kind))
            &&& match item.kind {
                ItemKind::InlineMod(decl) => Self::members_visited(prev, next, decl.items@, d, info, item.id),
                ItemKind::ExternMod(decl) => Self::members_visited(prev, next, decl.items@, d, info, item.id),
                _ => {
                    &&& next.diagnostics == prev.diagnostics
                    &&& next.sess.items() == prev.sess.items().insert(d.0, info)
                    &&& next.rcx.defs_by_node@ == prev.rcx.defs_by_node@.insert(item.id.0, d)
                },
            }
        })
    }

    /// A module's members visited one after the other, in a scope of their own, from
    /// `prev`, and the module then registered as `d` with `info` and its node `id` mapped
    /// to it: the reports are those of the members' visits, and the session and node map
    /// those they leave, with the module added.
    pub open spec fn members_visited(prev: FirstPass, next: FirstPass, items: Seq<Item>, d: DefId, info: ItemInfo, id: NodeId) -> bool
        decreases items, 3nat,
    {
        exists|states: Seq<FirstPass>, results: Seq<Option<DefId>>|
            #![trigger states.len(), results.len()]
        {
            &&& Self::visited_in_order(states, results, items)
            &&& states[0].diagnostics == prev.diagnostics
            &&& states[0].sess == prev.sess
            &&& states[0].rcx == prev.rcx
            &&& next.diagnostics == states[items.len() as int].diagnostics
            &&& next.sess.items() == states[items.len() as int].sess.items().insert(d.0, info)
            &&& next.rcx.defs_by_node@ == states[items.len() as int].rcx.defs_by_node@.insert(id.0, d)
        }
    }

    /// Whether `states` are the states of a pass that visits `items` one after the other,
    /// each visit giving back the result at its place in `results` ([Self::item_visited]).
    pub open spec fn visited_in_order(states: Seq<FirstPass>, results: Seq<Option<DefId>>, items: Seq<Item>) -> bool
        decreases items, 2nat,
    {
        &&& states.len() == items.len() + 1
        &&& results.len() == items.len()
        &&& items.len() > 0 ==> {
            &&& Self::item_visited(states[0], states[1], items[0], results[0])
            &&& Self::visited_in_order(states.drop_first(), results.drop_first(), items.drop_first())
        }
    }

    /// Registers the items of a file, each in the current scope: a name the scope binds
    /// keeps what it was bound to, and afterwards the scope binds every item's name.
    pub fn visit_ast(&mut self, ast: &Ast)
        requires
            old(self).inv(),
            old(self).sess.items().len() + items_count(ast.items@) < u32::MAX - 1,
        ensures
            Self::keeps(*old(self), *final(self)),
            members_closed(old(self).sess.items()) ==> members_closed(final(self).sess.items()),
            exists|states: Seq<FirstPass>, results: Seq<Option<DefId>>| {
                &&& #[trigger] Self::visited_in_order(states, results, ast.items@)
                &&& states[0] == *old(self)
                &&& states[ast.items@.len() as int] == *final(self)
            },
            forall|k: usize| #[trigger] old(self).stack.scopes().last().contains_key(k) ==>
                final(self).stack.scopes().last().contains_key(k)
                && final(self).stack.scopes().last()[k] == old(self).stack.scopes().last()[k],
            forall|j: int| 0 <= j < ast.items@.len() ==> final(self).stack.scopes().last().contains_key(item_key(#[trigger] ast.items@[j])),
            forall|k: usize| #[trigger] final(self).stack.scopes().last().contains_key(k) ==>
                old(self).stack.scopes().last().contains_key(k)
                || exists|j: int| 0 <= j < ast.items@.len() && item_key(#[trigger] ast.items@[j]) == k,
    {
        let ghost start = *self;
        proof {
            lemma_keeps_refl(start);
        }
        let mut i: usize = 0;
        let ghost mut states: Seq<FirstPass> = seq![start];
        let ghost mut results: Seq<Option<DefId>> = Seq::empty();
        assert(ast.items@.take(0) =~= Seq::<Item>::empty());
        while i < ast.items.len()
            invariant
                states.len() == i + 1,
                results.len() == i,
                states[0] == start,
                states[i as int] == *self,
                Self::visited_in_order(states, results, ast.items@.take(i as int)),
                Self::keeps(start, *self),
                members_closed(start.sess.items()) ==> members_closed(self.sess.items()),
                0 <= i <= ast.items@.len(),
                start.sess.items().len() + items_count(ast.items@) < u32::MAX - 1,
                self.sess.items().len() <= start.sess.items().len() + items_count(ast.items@.take(i as int)),
                forall|k: usize| #[trigger] start.stack.scopes().last().contains_key(k) ==>
                    self.stack.scopes().last().contains_key(k)
                    && self.stack.scopes().last()[k] == start.stack.scopes().last()[k],
                forall|j: int| 0 <= j < i ==> self.stack.scopes().last().contains_key(item_key(#[trigger] ast.items@[j])),
                forall|k: usize| #[trigger] self.stack.scopes().last().contains_key(k) ==>
                    start.stack.scopes().last().contains_key(k)
                    || exists|j: int| 0 <= j < i && item_key(#[trigger] ast.items@[j]) == k,
            decreases ast.items@.len() - i,
        {
            let ghost before = *self;
            let ghost key = item_key(ast.items@[i as int]);
            proof {
                lemma_items_count_prefix(ast.items@, i as int);
            }
            let res = self.visit_item(&ast.items[i]);
            proof {
                lemma_visited_push(states, results, ast.items@.take(i as int), *self, ast.items@[i as int], res);
                assert(ast.items@.take(i as int).push(ast.items@[i as int]) =~= ast.items@.take(i + 1));
                states = states.push(*self);
                results = results.push(res);
                lemma_keeps_trans(start, before, *self);
                let last = self.stack.scopes().len() - 1;
                assert(self.stack.scopes().last() == self.stack.scopes()[last]);
                assert(before.stack.scopes().last() == before.stack.scopes()[last]);
                assert forall|k: usize| #[trigger] self.stack.scopes().last().contains_key(k) implies
                    start.stack.scopes().last().contains_key(k)
                    || exists|j: int| 0 <= j < i + 1 && item_key(#[trigger] ast.items@[j]) == k by {
                    if k != key {
                        assert(before.stack.scopes().last().contains_key(k));
                    }
                }
            }
            i = i + 1;
        }
        proof {
            assert(ast.items@.take(i as int) =~= ast.items@);
        }
    }

    /// Registers `item` and binds its name in the current scope, giving back its new
    /// definition; a module's members are registered first, in a scope of their own. A
    /// name the current scope binds already is reported instead, and nothing else changes.
    #[verifier::rlimit(40)]
    pub fn visit_item(&mut self, item: &Item) -> (r: Option<DefId>)
        requires
            old(self).inv(),
            old(self).sess.items().len() + item_count(*item) < u32::MAX - 1,
        ensures
            Self::keeps(*old(self), *final(self)),
            members_closed(old(self).sess.items()) ==> members_closed(final(self).sess.items()),
            final(self).sess.items().len() <= old(self).sess.items().len() + item_count(*item),
            Self::item_visited(*old(self), *final(self), *item, r),
        decreases *item, 1nat,
    {
        let ident = ident_of_item(item);
        let sym = ident.sym;
        let ghost key = sym.key();
        proof {
            let last = self.stack.scopes().len() - 1;
            assert(self.stack.scopes()[last] == self.stack.scopes().last());
        }
        match self.stack.current().lookup(sym) {
            Some(def) => {
                let first_definition = match def {
                    Def::Def(id) => Some(self.sess.item(id).signature_span()),
                    _ => None,
                };
                self.diagnostics.push(DuplicateDefinition { file_id: self.file_id, name: sym, span: ident.span, first_definition });
                proof {
                    lemma_keeps_refl(*old(self));
                    assert(self.diagnostics@.take(old(self).diagnostics@.len() as int) =~= old(self).diagnostics@);
                }
                return None;
            },
            None => {},
        }
        let signature_span = match &item.kind {
            ItemKind::InlineMod(decl) => Span::from((item.span.start, decl.ident.span.end)),
            ItemKind::ExternMod(decl) => Span::from((item.span.start, decl.ident.span.end)),
            ItemKind::Fn(decl) => Span::from((item.span.start, decl.return_ty.span.end)),
            ItemKind::ExternFn(decl) => Span::from((item.span.start, decl.return_ty.span.end)),
        };
        proof {
            lemma_keeps_refl(*self);
        }
        let kind = match &item.kind {
            ItemKind::Fn(_decl) => SessionItemKind::Fn { signature_span },
            ItemKind::ExternFn(decl) => SessionItemKind::ExternFn {
                ffi_name: match &decl.ffi_name {
                    Some(i) => Some(i.sym),
                    None => None,
                },
                signature_span,
            },
            ItemKind::ExternMod(decl) => {
                proof {
                    assert(decreases_to!(*item => item.kind));
                    assert(decreases_to!(item.kind => item.kind->ExternMod_0));
                    assert(decreases_to!(item.kind->ExternMod_0 => item.kind->ExternMod_0.items));
                    assert(decreases_to!(item.kind->ExternMod_0.items => item.kind->ExternMod_0.items@));
                }
                let items = self.visit_members(&decl.items);
                SessionItemKind::ExternMod {
                    items,
                    ffi_name: match &decl.ffi_name {
                        Some(i) => Some(i.sym),
                        None => None,
                    },
                    signature_span,
                }
            },
            ItemKind::InlineMod(decl) => {
                proof {
                    assert(decreases_to!(*item => item.kind));
                    assert(decreases_to!(item.kind => item.kind->InlineMod_0));
                    assert(decreases_to!(item.kind->InlineMod_0 => item.kind->InlineMod_0.items));
                    assert(decreases_to!(item.kind->InlineMod_0.items => item.kind->InlineMod_0.items@));
                }
                let items = self.visit_members(&decl.items);
                SessionItemKind::InlineMod { items, signature_span }
            },
        };
        let vis = match item.vis {
            AstVisibility::Private => Visibility::Private,
            AstVisibility::Public => Visibility::Public,
        };
        let ghost mid = *self;
        proof {
            assert(members_registered(kind.members(), mid.sess.items(), module_items(item.kind)));
            assert(mid.sess.items().len() <= old(self).sess.items().len() + item_count(*item) - 1);
        }
        let info = ItemInfo { name: sym, kind, id: item.id, vis };
        let ghost info_v = info;
        let def_id = self.sess.register_item(info);
        let ghost registered = *self;
        self.register_def(sym, def_id, item.id);
        proof {
            lemma_register_grows(mid, registered, def_id, info_v);
            lemma_grows_trans(*old(self), mid, *self);
            lemma_members_registered_extends(info_v.kind.members(), mid.sess.items(), self.sess.items(), module_items(item.kind));
            if item.kind is InlineMod || item.kind is ExternMod {
                lemma_module_visited(*old(self), mid, *self, module_items(item.kind), def_id, info_v, item.id);
            }
            if members_closed(old(self).sess.items()) {
                lemma_closed_after_register(mid.sess.items(), self.sess.items(), def_id.0, info_v, module_items(item.kind));
            }
            assert(self.stack.scopes().drop_last() =~= old(self).stack.scopes().drop_last());
            assert(!old(self).sess.items().contains_key(def_id.0));
            let last = mid.stack.scopes().len() - 1;
            assert forall|k: int, t: usize|
                0 <= k < self.stack.scopes().len() && #[trigger] self.stack.scopes()[k].contains_key(t)
                    && self.stack.scopes()[k][t] is Def implies self.sess.items().contains_key(self.stack.scopes()[k][t]->Def_0.0) by {
                if k != last || t != key {
                    assert(mid.stack.scopes()[k].contains_key(t));
                    assert(mid.sess.items().contains_key(mid.stack.scopes()[k][t]->Def_0.0));
                }
            }
        }
        Some(def_id)
    }

    /// Registers the members of a module in a scope of their own, giving back the
    /// definition of each member name: that of the first member of the name.
    #[verifier::rlimit(40)]
    fn visit_members(&mut self, items: &Vec<Item>) -> (r: HashMap<usize, DefId>)
        requires
            old(self).inv(),
            old(self).sess.items().len() + items_count(items@) < u32::MAX - 1,
        ensures
            Self::keeps(*old(self), *final(self)),
            members_closed(old(self).sess.items()) ==> members_closed(final(self).sess.items()),
            final(self).stack.scopes() == old(self).stack.scopes(),
            final(self).sess.items().len() <= old(self).sess.items().len() + items_count(items@),
            members_registered(r@, final(self).sess.items(), items@),
            forall|k: usize| #[trigger] r@.contains_key(k) ==> !old(self).sess.items().contains_key(r@[k].0),
            exists|states: Seq<FirstPass>, results: Seq<Option<DefId>>| {
                &&& #[trigger] Self::visited_in_order(states, results, items@)
                &&& states[0].diagnostics == old(self).diagnostics
                &&& states[0].sess == old(self).sess
                &&& states[0].rcx == old(self).rcx
                &&& final(self).diagnostics == states[items@.len() as int].diagnostics
                &&& final(self).sess == states[items@.len() as int].sess
                &&& final(self).rcx == states[items@.len() as int].rcx
            },
        decreases items@, 0nat,
    {
        let ghost start = *self;
        let ghost base = start.stack.scopes();
        self.stack.enter(None);
        let mut members: HashMap<usize, DefId> = HashMap::new();
        let mut i: usize = 0;
        let ghost s0 = *self;
        let ghost mut states: Seq<FirstPass> = seq![s0];
        let ghost mut results: Seq<Option<DefId>> = Seq::empty();
        proof {
            lemma_grows_refl(start);
            assert(items@.take(0) =~= Seq::<Item>::empty());
            assert(self.stack.scopes().drop_last() =~= base);
            assert forall|k: int, t: usize|
                0 <= k < self.stack.scopes().len() && #[trigger] self.stack.scopes()[k].contains_key(t)
                    && self.stack.scopes()[k][t] is Def implies self.sess.items().contains_key(self.stack.scopes()[k][t]->Def_0.0) by {
                assert(k < base.len());
                assert(self.stack.scopes()[k] == base[k]);
            }
        }
        while i < items.len()
            invariant
                states.len() == i + 1,
                results.len() == i,
                states[0] == s0,
                s0.diagnostics == start.diagnostics,
                s0.sess == start.sess,
                s0.rcx == start.rcx,
                states[i as int] == *self,
                Self::visited_in_order(states, results, items@.take(i as int)),
                self.inv(),
                Self::grows(start, *self),
                members_closed(start.sess.items()) ==> members_closed(self.sess.items()),
                self.stack.entered() == start.stack.entered().push(None),
                self.stack.scope_paths() == start.stack.scope_paths().push(start.stack.entered().push(None)),
                self.stack.scopes().len() == base.len() + 1,
                self.stack.scopes().drop_last() == base,
                base == start.stack.scopes(),
                0 <= i <= items@.len(),
                start.sess.items().len() + items_count(items@) < u32::MAX - 1,
                self.sess.items().len() <= start.sess.items().len() + items_count(items@.take(i as int)),
                forall|k: usize| #[trigger] self.stack.scopes().last().contains_key(k) == members@.contains_key(k),
                forall|k: usize| #[trigger] members@.contains_key(k) ==> self.stack.scopes().last()[k] == Def::Def(members@[k]),
                members_registered(members@, self.sess.items(), items@.take(i as int)),
                forall|k: usize| #[trigger] members@.contains_key(k) ==> !start.sess.items().contains_key(members@[k].0),
            decreases items@.len() - i,
        {
            let sym = ident_of_item(&items[i]).sym;
            let ghost before = *self;
            let ghost key = item_key(items@[i as int]);
            let ghost mb = members@;
            proof {
                lemma_items_count_prefix(items@, i as int);
                assert(decreases_to!(items@ => items@[i as int]));
            }
            let res = self.visit_item(&items[i]);
            proof {
                lemma_visited_push(states, results, items@.take(i as int), *self, items@[i as int], res);
                assert(items@.take(i as int).push(items@[i as int]) =~= items@.take(i + 1));
                states = states.push(*self);
                results = results.push(res);
            }
            match res {
                Some(id) => {
                    members.insert(sym.as_index(), id);
                },
                None => {},
            }
            proof {
                lemma_grows_trans(start, before, *self);
                lemma_member_step(mb, before.sess.items(), self.sess.items(), items@, i as int, res);
                assert(members@ == match res {
                    Some(d) => mb.insert(key, d),
                    None => mb,
                });
                if let Some(id) = res {
                    if start.sess.items().contains_key(id.0) {
                        assert(before.sess.items().contains_key(id.0));
                    }
                }
            }
            i = i + 1;
        }
        let ghost before_leave = *self;
        self.stack.leave();
        proof {
            assert(items@.take(i as int) =~= items@);
            assert(items@.take(i as int) =~= items@);
            assert(start.stack.entered().push(None).drop_last() =~= start.stack.entered());
            assert(start.stack.scope_paths().push(start.stack.entered().push(None)).drop_last() =~= start.stack.scope_paths());
            assert forall|k: int, t: usize|
                0 <= k < self.stack.scopes().len() && #[trigger] self.stack.scopes()[k].contains_key(t)
                    && self.stack.scopes()[k][t] is Def implies self.sess.items().contains_key(self.stack.scopes()[k][t]->Def_0.0) by {
                assert(self.stack.scopes()[k] == before_leave.stack.scopes()[k]);
            }
        }
        members
    }
}

/// A module whose members were visited in order from `prev` to `mid`, and which was then
/// registered as `d` in `next`, had its members visited as [FirstPass::members_visited]
/// says.
pub proof fn lemma_module_visited(prev: FirstPass, mid: FirstPass, next: FirstPass, ms: Seq<Item>, d: DefId, info: ItemInfo, id: NodeId)
    requires
        exists|st: Seq<FirstPass>, rs: Seq<Option<DefId>>| {
            &&& #[trigger] FirstPass::visited_in_order(st, rs, ms)
            &&& st[0].diagnostics == prev.diagnostics
            &&& st[0].sess == prev.sess
            &&& st[0].rcx == prev.rcx
            &&& mid.diagnostics == st[ms.len() as int].diagnostics
            &&& mid.sess == st[ms.len() as int].sess
            &&& mid.rcx == st[ms.len() as int].rcx
        },
        next.diagnostics == mid.diagnostics,
        next.sess.items() == mid.sess.items().insert(d.0, info),
        next.rcx.defs_by_node@ == mid.rcx.defs_by_node@.insert(id.0, d),
    ensures
        FirstPass::members_visited(prev, next, ms, d, info, id),
{
    let w = choose|st: Seq<FirstPass>, rs: Seq<Option<DefId>>| {
        &&& #[trigger] FirstPass::visited_in_order(st, rs, ms)
        &&& st[0].diagnostics == prev.diagnostics
        &&& st[0].sess == prev.sess
        &&& st[0].rcx == prev.rcx
        &&& mid.diagnostics == st[ms.len() as int].diagnostics
        &&& mid.sess == st[ms.len() as int].sess
        &&& mid.rcx == st[ms.len() as int].rcx
    };
    assert(FirstPass::visited_in_order(w.0, w.1, ms));
    assert(w.0.len() == ms.len() + 1 && w.1.len() == ms.len());
}

/// A pass that visited `items` and then visits `item` has visited `items` followed by it.
pub proof fn lemma_visited_push(
    states: Seq<FirstPass>,
    results: Seq<Option<DefId>>,
    items: Seq<Item>,
    next: FirstPass,
    item: Item,
    r: Option<DefId>,
)
    requires
        FirstPass::visited_in_order(states, results, items),
        FirstPass::item_visited(states[items.len() as int], next, item, r),
    ensures
        FirstPass::visited_in_order(states.push(next), results.push(r), items.push(item)),
    decreases items.len(),
{
    if items.len() > 0 {
        assert(states.drop_first()[items.drop_first().len() as int] == states[items.len() as int]);
        lemma_visited_push(states.drop_first(), results.drop_first(), items.drop_first(), next, item, r);
        assert(states.push(next).drop_first() =~= states.drop_first().push(next));
        assert(results.push(r).drop_first() =~= results.drop_first().push(r));
        assert(items.push(item).drop_first() =~= items.drop_first().push(item));
        assert(states.push(next)[0] == states[0]);
        assert(states.push(next)[1] == states[1]);
        assert(results.push(r)[0] == results[0]);
        assert(items.push(item)[0] == items[0]);
    } else {
        let s2 = states.push(next);
        let r2 = results.push(r);
        let i2 = items.push(item);
        assert(s2[0] == states[0]);
        assert(s2[1] == next);
        assert(r2[0] == r);
        assert(i2[0] == item);
        assert(FirstPass::visited_in_order(s2.drop_first(), r2.drop_first(), i2.drop_first()));
    }
}

/// Registering an item whose members are registered keeps every member of every module
/// registered.
pub proof fn lemma_closed_after_register(
    mid: Map<u64, ItemInfo>,
    later: Map<u64, ItemInfo>,
    d: u64,
    info: ItemInfo,
    items: Seq<Item>,
)
    requires
        members_closed(mid),
        !mid.contains_key(d),
        later == mid.insert(d, info),
        members_registered(info.kind.members(), mid, items),
    ensures
        members_closed(later),
{
    assert forall|k: u64, s: usize| later.contains_key(k) && #[trigger] later[k].kind.members().contains_key(s)
        implies later.contains_key(later[k].kind.members()[s].0) by {
        if k == d {
            let j = choose|j: int| 0 <= j < items.len() && item_key(#[trigger] items[j]) == s;
            let j0 = lemma_first_occurrence(items, j);
            assert(mid.contains_key(info.kind.members()[item_key(items[j0])].0));
        } else {
            assert(mid[k] == later[k]);
            assert(mid[k].kind.members().contains_key(s));
        }
    }
}

/// Nothing changed is grown and kept.
pub proof fn lemma_grows_refl(a: FirstPass)
    ensures
        FirstPass::grows(a, a),
{
    assert(a.diagnostics@.take(a.diagnostics@.len() as int) =~= a.diagnostics@);
}

/// A pass that changed nothing keeps what it had.
pub proof fn lemma_keeps_refl(a: FirstPass)
    requires
        a.inv(),
    ensures
        FirstPass::keeps(a, a),
{
    lemma_grows_refl(a);
}

/// Growing twice is growing.
pub proof fn lemma_grows_trans(a: FirstPass, b: FirstPass, c: FirstPass)
    requires
        FirstPass::grows(a, b),
        FirstPass::grows(b, c),
    ensures
        FirstPass::grows(a, c),
{
    assert forall|k: u64| #[trigger] a.sess.items().contains_key(k) implies c.sess.items().contains_key(k)
        && c.sess.items()[k] == a.sess.items()[k] by {
        assert(b.sess.items().contains_key(k));
    }
    assert(c.diagnostics@.take(a.diagnostics@.len() as int) =~= c.diagnostics@.take(b.diagnostics@.len() as int).take(a.diagnostics@.len() as int));
}

/// Keeping twice is keeping.
pub proof fn lemma_keeps_trans(a: FirstPass, b: FirstPass, c: FirstPass)
    requires
        FirstPass::keeps(a, b),
        FirstPass::keeps(b, c),
    ensures
        FirstPass::keeps(a, c),
{
    lemma_grows_trans(a, b, c);
}

/// Registering a fresh item grows the session by that one item.
pub proof fn lemma_register_grows(mid: FirstPass, registered: FirstPass, d: DefId, info: ItemInfo)
    requires
        mid.sess.wf(),
        !mid.sess.items().contains_key(d.0),
        registered.sess.items() == mid.sess.items().insert(d.0, info),
        registered.file_id == mid.file_id,
        registered.diagnostics == mid.diagnostics,
    ensures
        FirstPass::grows(mid, registered),
        registered.sess.items().len() == mid.sess.items().len() + 1,
{
    lemma_grows_refl(mid);
    assert(registered.sess.items().dom() =~= mid.sess.items().dom().insert(d.0));
}

/// The members that a module item holds; none for a function.
pub open spec fn module_items(kind: ItemKind) -> Seq<Item> {
    match kind {
        ItemKind::InlineMod(decl) => decl.items@,
        ItemKind::ExternMod(decl) => decl.items@,
        _ => Seq::empty(),
    }
}

/// Whether a session item kind is the kind of item an item of the syntax tree is, with the
/// same host-side name.
pub open spec fn kind_matches(kind: SessionItemKind, item: ItemKind) -> bool {
    match item {
        ItemKind::Fn(_) => kind is Fn,
        ItemKind::ExternFn(decl) => kind matches SessionItemKind::ExternFn { ffi_name, .. }
            && ffi_name == match decl.ffi_name {
                Some(i) => Some(i.sym),
                None => None,
            },
        ItemKind::InlineMod(_) => kind is InlineMod,
        ItemKind::ExternMod(decl) => kind matches SessionItemKind::ExternMod { ffi_name, .. }
            && ffi_name == match decl.ffi_name {
                Some(i) => Some(i.sym),
                None => None,
            },
    }
}

/// Whether `members` holds exactly the member names of `items`, each with the registered
/// definition of the first member of that name.
pub open spec fn members_registered(members: Map<usize, DefId>, sess: Map<u64, ItemInfo>, items: Seq<Item>) -> bool {
    &&& forall|j: int| 0 <= j < items.len() && first_of_its_name(items, j) ==> {
        &&& members.contains_key(item_key(#[trigger] items[j]))
        &&& sess.contains_key(members[item_key(items[j])].0)
        &&& sess[members[item_key(items[j])].0].id == items[j].id
        &&& sess[members[item_key(items[j])].0].name == item_ident(items[j]).sym
    }
    &&& forall|k: usize| #[trigger] members.contains_key(k) ==> exists|j: int| 0 <= j < items.len() && item_key(#[trigger] items[j]) == k
}

/// The members before a member `key` was added by a result `res`.
pub open spec fn before_members(members: Map<usize, DefId>, res: Option<DefId>, key: usize) -> Map<usize, DefId> {
    if res is Some { members.remove(key) } else { members }
}

/// The first item of `items` that declares the name item `j` declares.
pub proof fn lemma_first_occurrence(items: Seq<Item>, j: int) -> (j0: int)
    requires
        0 <= j < items.len(),
    ensures
        0 <= j0 <= j,
        first_of_its_name(items, j0),
        item_key(items[j0]) == item_key(items[j]),
    decreases j,
{
    if first_of_its_name(items, j) {
        j
    } else {
        let m = choose|m: int| 0 <= m < j && item_key(#[trigger] items[m]) == item_key(items[j]);
        lemma_first_occurrence(items, m)
    }
}

/// Whether an item is the first of its name does not depend on the items after it.
pub proof fn lemma_first_take(items: Seq<Item>, n: int, j: int)
    requires
        0 <= j < n <= items.len(),
    ensures
        first_of_its_name(items.take(n), j) == first_of_its_name(items, j),
        items.take(n)[j] == items[j],
{
    assert forall|q: int| 0 <= q < j implies #[trigger] items.take(n)[q] == items[q] by {}
    if first_of_its_name(items, j) {
        assert forall|q: int| 0 <= q < j implies item_key(#[trigger] items.take(n)[q]) != item_key(items.take(n)[j]) by {
            assert(items.take(n)[q] == items[q]);
        }
    }
    if first_of_its_name(items.take(n), j) {
        assert forall|q: int| 0 <= q < j implies item_key(#[trigger] items[q]) != item_key(items[j]) by {
            assert(items.take(n)[q] == items[q]);
        }
    }
}

/// The members registered for the items before `i` hold the name of item `i` exactly
/// when an earlier item declares it.
pub proof fn lemma_name_seen(m: Map<usize, DefId>, s: Map<u64, ItemInfo>, items: Seq<Item>, i: int)
    requires
        0 <= i < items.len(),
        members_registered(m, s, items.take(i)),
    ensures
        m.contains_key(item_key(items[i])) == !first_of_its_name(items, i),
{
    let key = item_key(items[i]);
    let prefix = items.take(i);
    if m.contains_key(key) {
        let j = choose|j: int| 0 <= j < prefix.len() && item_key(#[trigger] prefix[j]) == key;
        assert(prefix[j] == items[j]);
    } else if !first_of_its_name(items, i) {
        let q = choose|q: int| 0 <= q < i && item_key(#[trigger] items[q]) == key;
        let j0 = lemma_first_occurrence(items, q);
        lemma_first_take(items, i, j0);
    }
}

/// Visiting the next member keeps the members registered: a member of a new name is
/// added under that name, and a member of a name seen before changes nothing.
pub proof fn lemma_member_step(m: Map<usize, DefId>, s1: Map<u64, ItemInfo>, s2: Map<u64, ItemInfo>, items: Seq<Item>, i: int, res: Option<DefId>)
    requires
        0 <= i < items.len(),
        members_registered(m, s1, items.take(i)),
        extends(s1, s2),
        res is Some <==> !m.contains_key(item_key(items[i])),
        res matches Some(d) ==> s2.contains_key(d.0) && s2[d.0].id == items[i].id
            && s2[d.0].name == item_ident(items[i]).sym,
    ensures
        members_registered(
            match res {
                Some(d) => m.insert(item_key(items[i]), d),
                None => m,
            },
            s2,
            items.take(i + 1),
        ),
{
    let key = item_key(items[i]);
    let prefix = items.take(i);
    let next = items.take(i + 1);
    let m2 = match res {
        Some(d) => m.insert(key, d),
        None => m,
    };
    lemma_members_registered_extends(m, s1, s2, prefix);
    lemma_name_seen(m, s1, items, i);
    assert forall|j: int| 0 <= j < next.len() && first_of_its_name(next, j) implies {
        &&& m2.contains_key(item_key(#[trigger] next[j]))
        &&& s2.contains_key(m2[item_key(next[j])].0)
        &&& s2[m2[item_key(next[j])].0].id == next[j].id
        &&& s2[m2[item_key(next[j])].0].name == item_ident(next[j]).sym
    } by {
        lemma_first_take(items, i + 1, j);
        if j < i {
            lemma_first_take(items, i, j);
            if res is Some {
                assert(item_key(items[j]) != key);
            }
        }
    }
    assert forall|k: usize| #[trigger] m2.contains_key(k) implies exists|j: int| 0 <= j < next.len() && item_key(#[trigger] next[j]) == k by {
        if m.contains_key(k) {
            let j = choose|j: int| 0 <= j < prefix.len() && item_key(#[trigger] prefix[j]) == k;
            assert(next[j] == prefix[j]);
        } else {
            assert(next[i] == items[i]);
        }
    }
}

/// Registered members stay registered as the session grows.
pub proof fn lemma_members_registered_extends(members: Map<usize, DefId>, s1: Map<u64, ItemInfo>, s2: Map<u64, ItemInfo>, items: Seq<Item>)
    requires
        members_registered(members, s1, items),
        extends(s1, s2),
    ensures
        members_registered(members, s2, items),
{
    assert forall|j: int| 0 <= j < items.len() && first_of_its_name(items, j) implies {
        &&& members.contains_key(item_key(#[trigger] items[j]))
        &&& s2.contains_key(members[item_key(items[j])].0)
        &&& s2[members[item_key(items[j])].0].id == items[j].id
        &&& s2[members[item_key(items[j])].0].name == item_ident(items[j]).sym
    } by {
        assert(s1.contains_key(members[item_key(items[j])].0));
    }
}

/// Counting items over a prefix: a prefix and the next item count no more than the whole.
pub proof fn lemma_items_count_prefix(items: Seq<Item>, i: int)
    requires
        0 <= i < items.len(),
    ensures
        items_count(items.take(i)) + item_count(items[i]) == items_count(items.take(i + 1)),
        items_count(items.take(i + 1)) <= items_count(items),
    decreases items.len(),
{
    assert(items.take(i + 1).drop_last() =~= items.take(i));
    assert(items.take(i + 1).last() == items[i]);
    if i + 1 < items.len() {
        lemma_items_count_prefix(items.drop_last(), i);
        assert(items.drop_last().take(i + 1) =~= items.take(i + 1));
    } else {
        assert(items.take(i + 1) =~= items);
    }
}

} // verus!
